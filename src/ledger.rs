//! The ledger service: a monotonic clock, the live keys with their expirations and
//! budget trackers, and the four operations on them.

use std::collections::BTreeMap;
use vstd::prelude::*;

use crate::budget::{
    fresh_tracker, has_budget, record_use, revoke, transform_choice, Application, BudgetTracker,
    BudgetTrackerView,
};
use crate::messages::{
    access_policy_of, blob_header_of, public_key_details_bytes, BlobHeader, BlobHeaderView,
    DataAccessPolicy, DataAccessPolicyView, PublicKeyDetails,
};
use crate::status::{Status, StatusCode};
use crate::time::{
    duration_value, fits_timestamp, parse_duration, parse_timestamp, timestamp_of,
    timestamp_value, to_timestamp, Duration, Timestamp, NANOS_PER_SECOND,
};
use crate::wire::bytes_equal;

verus! {

broadcast use vstd::std_specs::btree::group_btree_axioms;

/// The SHA-256 digest of a byte string.
pub uninterp spec fn sha256_digest(b: Seq<u8>) -> Seq<u8>;

/// Relies on sha2's `Sha256::digest`: the SHA-256 digest of the bytes, which
/// depends on them alone and has 32 bytes.
#[verifier::external_body]
fn sha256(b: &[u8]) -> (r: Vec<u8>)
    ensures
        r@ == sha256_digest(b@),
        r@.len() == 32,
{
    <sha2::Sha256 as sha2::Digest>::digest(b).to_vec()
}

/// Relies on rand's `OsRng::try_fill_bytes`: four bytes from the operating
/// system's generator, of which nothing is known, or `None` when the generator
/// fails.
#[verifier::external_body]
fn random_u32() -> Option<u32> {
    let mut buf = [0u8; 4];
    match rand::RngCore::try_fill_bytes(&mut rand::rngs::OsRng, &mut buf) {
        Ok(()) => Some(u32::from_le_bytes(buf)),
        Err(_) => None,
    }
}

/// The first of `draws` that is not the id of a live key.
pub open spec fn first_free(keys: Map<u32, KeyView>, draws: Seq<u32>) -> Option<u32>
    decreases draws.len(),
{
    if draws.len() == 0 {
        None
    } else if !keys.contains_key(draws[0]) {
        Some(draws[0])
    } else {
        first_free(keys, draws.drop_first())
    }
}

/// What `first_free` picks is free.
pub proof fn lemma_first_free_is_free(keys: Map<u32, KeyView>, draws: Seq<u32>)
    ensures
        first_free(keys, draws) matches Some(id) ==> !keys.contains_key(id),
    decreases draws.len(),
{
    if draws.len() > 0 {
        lemma_first_free_is_free(keys, draws.drop_first());
    }
}

/// Draws up to `KEY_ID_ATTEMPTS` random key ids; a failed draw gives none.
fn draw_key_ids() -> (r: Vec<u32>)
    ensures
        r@.len() <= KEY_ID_ATTEMPTS,
{
    let mut draws: Vec<u32> = Vec::new();
    let mut attempt: u32 = 0;
    while attempt < KEY_ID_ATTEMPTS
        invariant
            attempt <= KEY_ID_ATTEMPTS,
            draws@.len() <= attempt,
        decreases KEY_ID_ATTEMPTS - attempt,
    {
        match random_u32() {
            Some(id) => draws.push(id),
            None => {},
        }
        attempt = attempt + 1;
    }
    draws
}

/// How many key ids `create_key` draws before it gives up.
pub const KEY_ID_ATTEMPTS: u32 = 32;

/// The greatest clock value that a wire timestamp can set, with room to spare.
pub const CLOCK_LIMIT: u128 = 10_000_000_000_000_000_000_000_000_000;

fn copy_bytes(b: &Vec<u8>) -> (r: Vec<u8>)
    ensures
        r@ == b@,
{
    vstd::slice::slice_to_vec(b.as_slice())
}

/// A key pair from the crypto adapter, as bytes.
pub struct KeyPair {
    pub private_key: Vec<u8>,
    pub public_key: Vec<u8>,
}

#[derive(Default)]
pub struct CreateKeyRequest {
    pub now: Option<Timestamp>,
    pub ttl: Option<Duration>,
}

#[derive(Debug, PartialEq, Eq)]
pub struct CreateKeyResponse {
    pub public_key: Vec<u8>,
    /// The encoded [`PublicKeyDetails`].
    pub public_key_details: Vec<u8>,
    /// Reserved; empty.
    pub attestation: Vec<u8>,
}

pub struct DeleteKeyRequest {
    pub public_key_id: u32,
}

#[derive(Debug, Default, PartialEq, Eq)]
pub struct DeleteKeyResponse {}

#[derive(Default)]
pub struct AuthorizeAccessRequest {
    pub now: Option<Timestamp>,
    pub access_policy: Vec<u8>,
    pub blob_header: Vec<u8>,
    pub encapsulated_key: Vec<u8>,
    pub encrypted_symmetric_key: Vec<u8>,
    pub recipient_public_key: Vec<u8>,
    pub recipient_attestation: Vec<u8>,
    pub recipient_tag: String,
    pub recipient_nonce: Vec<u8>,
}

pub struct AuthorizeAccessRequestView {
    pub now: Option<Timestamp>,
    pub access_policy: Seq<u8>,
    pub blob_header: Seq<u8>,
    pub encapsulated_key: Seq<u8>,
    pub encrypted_symmetric_key: Seq<u8>,
    pub recipient_public_key: Seq<u8>,
    pub recipient_nonce: Seq<u8>,
}

impl View for AuthorizeAccessRequest {
    type V = AuthorizeAccessRequestView;

    open spec fn view(&self) -> AuthorizeAccessRequestView {
        AuthorizeAccessRequestView {
            now: self.now,
            access_policy: self.access_policy@,
            blob_header: self.blob_header@,
            encapsulated_key: self.encapsulated_key@,
            encrypted_symmetric_key: self.encrypted_symmetric_key@,
            recipient_public_key: self.recipient_public_key@,
            recipient_nonce: self.recipient_nonce@,
        }
    }
}

#[derive(Debug, PartialEq, Eq)]
pub struct AuthorizeAccessResponse {
    pub encapsulated_key: Vec<u8>,
    pub encrypted_symmetric_key: Vec<u8>,
    pub reencryption_public_key: Vec<u8>,
}

pub struct RevokeAccessRequest {
    pub public_key_id: u32,
    pub blob_id: Vec<u8>,
}

#[derive(Debug, Default, PartialEq, Eq)]
pub struct RevokeAccessResponse {}

/// An approved access whose blob key still has to be re-wrapped: what the crypto
/// adapter takes, and what the ledger needs to record the use afterwards.
pub struct RewrapJob {
    pub public_key_id: u32,
    pub blob_id: Vec<u8>,
    pub policy: DataAccessPolicy,
    pub policy_hash: Vec<u8>,
    pub transform_index: usize,
    pub encrypted_symmetric_key: Vec<u8>,
    pub encapsulated_key: Vec<u8>,
    /// The ledger key's private half, which unwraps the blob key.
    pub private_key: Vec<u8>,
    /// The blob header, which the blob key was wrapped with.
    pub unwrap_associated_data: Vec<u8>,
    pub recipient_public_key: Vec<u8>,
    /// The ledger key's public half followed by the recipient's nonce.
    pub wrap_associated_data: Vec<u8>,
}

pub struct RewrapJobView {
    pub public_key_id: u32,
    pub blob_id: Seq<u8>,
    pub policy: DataAccessPolicyView,
    pub policy_hash: Seq<u8>,
    pub transform_index: nat,
    pub encrypted_symmetric_key: Seq<u8>,
    pub encapsulated_key: Seq<u8>,
    pub private_key: Seq<u8>,
    pub unwrap_associated_data: Seq<u8>,
    pub recipient_public_key: Seq<u8>,
    pub wrap_associated_data: Seq<u8>,
}

impl View for RewrapJob {
    type V = RewrapJobView;

    open spec fn view(&self) -> RewrapJobView {
        RewrapJobView {
            public_key_id: self.public_key_id,
            blob_id: self.blob_id@,
            policy: self.policy@,
            policy_hash: self.policy_hash@,
            transform_index: self.transform_index as nat,
            encrypted_symmetric_key: self.encrypted_symmetric_key@,
            encapsulated_key: self.encapsulated_key@,
            private_key: self.private_key@,
            unwrap_associated_data: self.unwrap_associated_data@,
            recipient_public_key: self.recipient_public_key@,
            wrap_associated_data: self.wrap_associated_data@,
        }
    }
}

/// The re-wrapped blob key that the crypto adapter returns.
pub struct RewrappedKey {
    pub encapsulated_key: Vec<u8>,
    pub encrypted_symmetric_key: Vec<u8>,
}

/// One live key.
pub struct KeyView {
    pub private_key: Seq<u8>,
    pub public_key: Seq<u8>,
    /// Nanoseconds since the epoch.
    pub expiration: int,
    pub budget: BudgetTrackerView,
}

/// The ledger: its clock, in nanoseconds since the epoch, and its live keys.
pub struct LedgerView {
    pub current_time: int,
    pub keys: Map<u32, KeyView>,
}

/// The keys that are still live at `now`.
pub open spec fn unexpired(keys: Map<u32, KeyView>, now: int) -> Map<u32, KeyView> {
    Map::new(|id: u32| keys.contains_key(id) && keys[id].expiration > now, |id: u32| keys[id])
}

/// The ledger after its clock is set to `now`, which must be well formed and not
/// earlier than its clock; the keys that expire by `now` are gone.
pub open spec fn advance_clock(s: LedgerView, now: Option<Timestamp>) -> Result<
    LedgerView,
    StatusCode,
> {
    match timestamp_value(now) {
        None => Err(StatusCode::InvalidArgument),
        Some(t) => if t < s.current_time {
            Err(StatusCode::InvalidArgument)
        } else {
            Ok(LedgerView { current_time: t, keys: unexpired(s.keys, t) })
        },
    }
}

/// The ledger with a new key `id`.
pub open spec fn with_new_key(
    s: LedgerView,
    id: u32,
    private_key: Seq<u8>,
    public_key: Seq<u8>,
    expiration: int,
) -> LedgerView {
    LedgerView {
        current_time: s.current_time,
        keys: s.keys.insert(
            id,
            KeyView { private_key, public_key, expiration, budget: fresh_tracker() },
        ),
    }
}

/// The ledger with the budget tracker of key `id` replaced.
pub open spec fn with_budget(s: LedgerView, id: u32, budget: BudgetTrackerView) -> LedgerView {
    LedgerView {
        current_time: s.current_time,
        keys: s.keys.insert(
            id,
            KeyView {
                private_key: s.keys[id].private_key,
                public_key: s.keys[id].public_key,
                expiration: s.keys[id].expiration,
                budget,
            },
        ),
    }
}

/// The ledger and the result after deleting key `id`, which must be live.
pub open spec fn deletion(s: LedgerView, id: u32) -> (LedgerView, Result<(), StatusCode>) {
    if s.keys.contains_key(id) {
        (LedgerView { current_time: s.current_time, keys: s.keys.remove(id) }, Ok(()))
    } else {
        (s, Err(StatusCode::NotFound))
    }
}

/// The ledger and the result after revoking `blob` under key `id`, which must be
/// live.
pub open spec fn revocation(s: LedgerView, id: u32, blob: Seq<u8>) -> (LedgerView, Result<
    (),
    StatusCode,
>) {
    if s.keys.contains_key(id) {
        (with_budget(s, id, revoke(s.keys[id].budget, blob)), Ok(()))
    } else {
        (s, Err(StatusCode::NotFound))
    }
}

/// The details that `create_key` reports of key `id`.
pub open spec fn details_of(id: u32, issued: int, expiration: int) -> PublicKeyDetails {
    PublicKeyDetails {
        public_key_id: id,
        issued: Some(timestamp_of(issued)),
        expiration: Some(timestamp_of(expiration)),
    }
}

/// What checking an access request yields after the clock step, the attestation
/// and the header: the policy must have the digest that the header commits to and
/// must decode, the header's key must be live, and a transform must be open.
pub open spec fn access_decision(
    s: LedgerView,
    req: AuthorizeAccessRequestView,
    header: BlobHeaderView,
    policy_digest: Seq<u8>,
    tag: Seq<char>,
) -> Result<RewrapJobView, StatusCode> {
    if policy_digest != header.access_policy_sha256 {
        Err(StatusCode::InvalidArgument)
    } else {
        match access_policy_of(req.access_policy) {
            None => Err(StatusCode::InvalidArgument),
            Some(policy) => if !s.keys.contains_key(header.public_key_id) {
                Err(StatusCode::NotFound)
            } else {
                let key = s.keys[header.public_key_id];
                match transform_choice(
                    key.budget,
                    header.blob_id,
                    policy,
                    header.access_policy_sha256,
                    tag,
                ) {
                    Err(c) => Err(c),
                    Ok(i) => Ok(
                        RewrapJobView {
                            public_key_id: header.public_key_id,
                            blob_id: header.blob_id,
                            policy,
                            policy_hash: header.access_policy_sha256,
                            transform_index: i,
                            encrypted_symmetric_key: req.encrypted_symmetric_key,
                            encapsulated_key: req.encapsulated_key,
                            private_key: key.private_key,
                            unwrap_associated_data: req.blob_header,
                            recipient_public_key: req.recipient_public_key,
                            wrap_associated_data: key.public_key + req.recipient_nonce,
                        },
                    ),
                }
            },
        }
    }
}

/// What an access request yields once the clock has moved: the attested
/// application must be there and the header must decode.
pub open spec fn access_request_outcome(
    s: LedgerView,
    req: AuthorizeAccessRequestView,
    app: Option<Seq<char>>,
) -> Result<RewrapJobView, StatusCode> {
    match app {
        None => Err(StatusCode::InvalidArgument),
        Some(tag) => match blob_header_of(req.blob_header) {
            None => Err(StatusCode::InvalidArgument),
            Some(header) => access_decision(s, req, header, sha256_digest(req.access_policy), tag),
        },
    }
}

/// The ledger and the result after the crypto adapter re-wrapped (or failed to
/// re-wrap) the blob key of an approved access. A failure changes nothing; a
/// success records one use of the chosen transform.
pub open spec fn access_completion(
    s: LedgerView,
    job: RewrapJobView,
    rewrapped: Option<(Seq<u8>, Seq<u8>)>,
) -> (LedgerView, Result<(Seq<u8>, Seq<u8>, Seq<u8>), StatusCode>) {
    match rewrapped {
        None => (s, Err(StatusCode::InvalidArgument)),
        Some((encapsulated_key, encrypted_symmetric_key)) => if !s.keys.contains_key(
            job.public_key_id,
        ) {
            (s, Err(StatusCode::NotFound))
        } else {
            let key = s.keys[job.public_key_id];
            if !(job.transform_index < job.policy.transforms.len() && has_budget(
                key.budget,
                job.blob_id,
                job.policy_hash,
                job.policy.transforms,
                job.transform_index as int,
            )) {
                (s, Err(StatusCode::Internal))
            } else {
                (
                    with_budget(
                        s,
                        job.public_key_id,
                        record_use(
                            key.budget,
                            job.blob_id,
                            job.policy,
                            job.policy_hash,
                            job.transform_index,
                        ),
                    ),
                    Ok((encapsulated_key, encrypted_symmetric_key, key.public_key)),
                )
            }
        },
    }
}

/// The tag of the attested application, if attestation produced one.
pub open spec fn attested_tag(app: Option<Application>) -> Option<Seq<char>> {
    match app {
        None => None,
        Some(a) => Some(a.tag@),
    }
}

/// The code of a failed result.
pub open spec fn code_of<T>(r: Result<T, Status>) -> Option<StatusCode> {
    match r {
        Ok(_) => None,
        Err(e) => Some(e.code),
    }
}

struct PerKeyLedger {
    private_key: Vec<u8>,
    public_key: Vec<u8>,
    expiration: u128,
    budget_tracker: BudgetTracker,
}

impl View for PerKeyLedger {
    type V = KeyView;

    closed spec fn view(&self) -> KeyView {
        KeyView {
            private_key: self.private_key@,
            public_key: self.public_key@,
            expiration: self.expiration as int,
            budget: self.budget_tracker@,
        }
    }
}

spec fn keys_view(m: Map<u32, PerKeyLedger>) -> Map<u32, KeyView> {
    m.map_values(|e: PerKeyLedger| e@)
}

/// The ledger service: a clock that only moves forward and the live keys.
pub struct LedgerService {
    current_time: u128,
    per_key_ledgers: BTreeMap<u32, PerKeyLedger>,
}

impl View for LedgerService {
    type V = LedgerView;

    closed spec fn view(&self) -> LedgerView {
        LedgerView {
            current_time: self.current_time as int,
            keys: keys_view(self.per_key_ledgers@),
        }
    }
}

spec fn entries_sound(m: Map<u32, PerKeyLedger>) -> bool {
    forall|id: u32|
        #[trigger] m.contains_key(id) ==> m[id].budget_tracker.wf() && m[id].expiration < 2
            * CLOCK_LIMIT
}

impl LedgerService {
    /// The ledger's own rules: sound budget trackers, and a clock that a wire
    /// timestamp set.
    pub closed spec fn wf(&self) -> bool {
        &&& entries_sound(self.per_key_ledgers@)
        &&& self.current_time < CLOCK_LIMIT
    }

    /// A ledger at the epoch, with no keys.
    pub fn new() -> (r: LedgerService)
        ensures
            r.wf(),
            r@.current_time == 0,
            r@.keys == Map::<u32, KeyView>::empty(),
    {
        let r = LedgerService { current_time: 0, per_key_ledgers: BTreeMap::new() };
        assert(r@.keys =~= Map::<u32, KeyView>::empty());
        r
    }

    /// Whether key `id` is live.
    pub fn has_key(&self, id: u32) -> (r: bool)
        requires
            self.wf(),
        ensures
            r == self@.keys.contains_key(id),
    {
        self.get_key(id).is_some()
    }

    /// The entry of key `id`, if it is live.
    fn get_key(&self, id: u32) -> (r: Option<&PerKeyLedger>)
        requires
            self.wf(),
        ensures
            match r {
                Some(e) => self@.keys.contains_key(id) && self@.keys[id] == e@
                    && e.budget_tracker.wf(),
                None => !self@.keys.contains_key(id),
            },
    {
        self.per_key_ledgers.get(&id)
    }

    /// Takes out the entry of key `id`, if it is live.
    fn take_key(&mut self, id: u32) -> (r: Option<PerKeyLedger>)
        requires
            old(self).wf(),
        ensures
            final(self).wf(),
            final(self)@ == (LedgerView {
                current_time: old(self)@.current_time,
                keys: old(self)@.keys.remove(id),
            }),
            match r {
                Some(e) => old(self)@.keys.contains_key(id) && old(self)@.keys[id] == e@
                    && e.budget_tracker.wf() && e.expiration < 2 * CLOCK_LIMIT,
                None => !old(self)@.keys.contains_key(id),
            },
    {
        let ghost before = self.per_key_ledgers@;
        let r = self.per_key_ledgers.remove(&id);
        assert(keys_view(self.per_key_ledgers@) =~= keys_view(before).remove(id));
        r
    }

    /// Puts in the entry of key `id`.
    fn put_key(&mut self, id: u32, e: PerKeyLedger)
        requires
            old(self).wf(),
            e.budget_tracker.wf(),
            e.expiration < 2 * CLOCK_LIMIT,
        ensures
            final(self).wf(),
            final(self)@ == (LedgerView {
                current_time: old(self)@.current_time,
                keys: old(self)@.keys.insert(id, e@),
            }),
    {
        let ghost before = self.per_key_ledgers@;
        self.per_key_ledgers.insert(id, e);
        assert(keys_view(self.per_key_ledgers@) =~= keys_view(before).insert(id, e@));
    }

    /// The ids of the keys that expire by `t`.
    fn expired_ids(&self, t: u128) -> (r: Vec<u32>)
        requires
            self.wf(),
        ensures
            forall|j: int|
                0 <= j < r@.len() ==> self@.keys.contains_key(#[trigger] r@[j])
                    && self@.keys[r@[j]].expiration <= t,
            forall|id: u32|
                self@.keys.contains_key(id) && self@.keys[id].expiration <= t ==> r@.contains(id),
    {
        let mut r: Vec<u32> = Vec::new();
        for k in it: self.per_key_ledgers.keys()
            invariant
                forall|j: int|
                    0 <= j < r@.len() ==> self@.keys.contains_key(#[trigger] r@[j])
                        && self@.keys[r@[j]].expiration <= t,
                forall|id: u32|
                    self@.keys.contains_key(id) && self@.keys[id].expiration <= t ==> r@.contains(id)
                        || exists|j: int| it.index() <= j < it.seq().len() && *it.seq()[j] == id,
        {
            let ghost before = r@;
            match self.per_key_ledgers.get(k) {
                Some(e) => {
                    if e.expiration <= t {
                        r.push(*k);
                    }
                },
                None => {},
            }
            proof {
                assert forall|id: u32|
                    self@.keys.contains_key(id) && self@.keys[id].expiration <= t implies r@.contains(
                        id,
                    ) || exists|j: int| it.index() + 1 <= j < it.seq().len() && *it.seq()[j] == id by {
                    if before.contains(id) {
                        let i = choose|i: int| 0 <= i < before.len() && before[i] == id;
                        assert(r@[i] == id);
                    } else {
                        let j = choose|j: int| it.index() <= j < it.seq().len() && *it.seq()[j] == id;
                        if j == it.index() {
                            assert(r@[r@.len() - 1] == id);
                        }
                    }
                }
            }
        }
        r
    }

    /// Sets the clock to `now` and drops the keys that expire by then. A malformed
    /// `now`, or one earlier than the clock, is refused and changes nothing.
    pub fn update_current_time(&mut self, now: &Option<Timestamp>) -> (r: Result<(), Status>)
        requires
            old(self).wf(),
        ensures
            final(self).wf(),
            match advance_clock(old(self)@, *now) {
                Ok(s) => r is Ok && final(self)@ == s,
                Err(c) => code_of(r) == Some(c) && final(self)@ == old(self)@,
            },
            timestamp_value(*now) matches Some(t) && t < old(self)@.current_time ==> (r matches Err(
                e,
            ) && e.code == StatusCode::InvalidArgument && e.message@ == "time must be monotonic"@)
                && final(self)@ == old(self)@,
            timestamp_value(*now) is Some && timestamp_value(*now)->0 >= old(self)@.current_time
                ==> r is Ok && final(self)@.current_time == timestamp_value(*now)->0
                && final(self)@.keys == unexpired(old(self)@.keys, timestamp_value(*now)->0),
    {
        let t = match parse_timestamp(now) {
            None => {
                return Err(Status::new(StatusCode::InvalidArgument, "`now` is invalid"));
            },
            Some(t) => t,
        };
        if t < self.current_time {
            return Err(Status::new(StatusCode::InvalidArgument, "time must be monotonic"));
        }
        let expired = self.expired_ids(t);
        let ghost start = self@.keys;
        let mut i: usize = 0;
        while i < expired.len()
            invariant
                self.wf(),
                self@.current_time == old(self)@.current_time,
                i <= expired@.len(),
                forall|j: int|
                    0 <= j < expired@.len() ==> start.contains_key(#[trigger] expired@[j])
                        && start[expired@[j]].expiration <= t,
                forall|id: u32|
                    start.contains_key(id) && start[id].expiration <= t ==> expired@.contains(id),
                forall|id: u32| #[trigger]
                    self@.keys.contains_key(id) == (start.contains_key(id)
                        && !expired@.take(i as int).contains(id)),
                forall|id: u32| #[trigger]
                    self@.keys.contains_key(id) ==> self@.keys[id] == start[id],
            decreases expired.len() - i,
        {
            let id = expired[i];
            let ghost before = self@.keys;
            let _ = self.take_key(id);
            proof {
                let done = expired@.take(i as int);
                assert(expired@.take(i + 1) =~= done.push(id));
                assert forall|x: u32| #[trigger]
                    self@.keys.contains_key(x) == (start.contains_key(x) && !done.push(id).contains(x)) by {
                    if done.push(id).contains(x) && x != id {
                        let j = choose|j: int| 0 <= j < done.push(id).len() && done.push(id)[j] == x;
                        assert(done[j] == x);
                    }
                    if done.contains(x) {
                        let j = choose|j: int| 0 <= j < done.len() && done[j] == x;
                        assert(done.push(id)[j] == x);
                    }
                    if x == id {
                        assert(done.push(id)[done.len() as int] == x);
                    }
                }
            }
            i = i + 1;
        }
        let ghost fin = self@.keys;
        proof {
            assert(expired@.take(i as int) =~= expired@);
            assert forall|id: u32| #[trigger] fin.contains_key(id) implies fin[id].expiration > t by {
                assert(start.contains_key(id) && !expired@.contains(id));
                assert(fin[id] == start[id]);
            }
            assert forall|id: u32|
                start.contains_key(id) && start[id].expiration > t implies #[trigger] fin.contains_key(id) by {
                if expired@.contains(id) {
                    let j = choose|j: int| 0 <= j < expired@.len() && expired@[j] == id;
                    assert(start[expired@[j]].expiration <= t);
                }
            }
            assert(fin =~= unexpired(start, t as int));
        }
        self.current_time = t;
        assert(self@.keys == fin);
        Ok(())
    }

    /// The first of `draws` that is not the id of a live key.
    pub fn first_free_key_id(&self, draws: &[u32]) -> (r: Option<u32>)
        requires
            self.wf(),
        ensures
            r == first_free(self@.keys, draws@),
    {
        let mut i: usize = 0;
        assert(draws@.subrange(0, draws@.len() as int) =~= draws@);
        while i < draws.len()
            invariant
                self.wf(),
                i <= draws@.len(),
                first_free(self@.keys, draws@) == first_free(
                    self@.keys,
                    draws@.subrange(i as int, draws@.len() as int),
                ),
            decreases draws.len() - i,
        {
            let ghost rest = draws@.subrange(i as int, draws@.len() as int);
            assert(rest.drop_first() =~= draws@.subrange(i + 1, draws@.len() as int));
            if self.get_key(draws[i]).is_none() {
                return Some(draws[i]);
            }
            i = i + 1;
        }
        None
    }

    /// Mints a key that lives for `ttl` from `now`, holding `keypair`, under the
    /// first of `draws` that is not a live key's id after the clock step; reports
    /// its public half and its details. With no free draw it fails with `Internal`.
    pub fn create_key_with_draws(
        &mut self,
        request: CreateKeyRequest,
        keypair: KeyPair,
        draws: &[u32],
    ) -> (r: Result<CreateKeyResponse, Status>)
        requires
            old(self).wf(),
        ensures
            final(self).wf(),
            match advance_clock(old(self)@, request.now) {
                Err(c) => code_of(r) == Some(c) && final(self)@ == old(self)@,
                Ok(s) => match duration_value(request.ttl) {
                    None => code_of(r) == Some(StatusCode::InvalidArgument) && final(self)@ == s,
                    Some(ttl) => if !fits_timestamp(s.current_time + ttl) {
                        code_of(r) == Some(StatusCode::InvalidArgument) && final(self)@ == s
                    } else {
                        match first_free(s.keys, draws@) {
                            Some(id) => r matches Ok(resp) && final(self)@ == with_new_key(
                                s,
                                id,
                                keypair.private_key@,
                                keypair.public_key@,
                                s.current_time + ttl,
                            ) && resp.public_key@ == keypair.public_key@
                                && resp.public_key_details@ == public_key_details_bytes(
                                details_of(id, s.current_time, s.current_time + ttl),
                            ) && resp.attestation@.len() == 0,
                            None => code_of(r) == Some(StatusCode::Internal) && final(self)@ == s,
                        }
                    },
                },
            },
            timestamp_value(request.now) matches Some(t) && t < old(self)@.current_time ==> (r matches Err(
                e,
            ) && e.code == StatusCode::InvalidArgument && e.message@ == "time must be monotonic"@)
                && final(self)@ == old(self)@,
    {
        match self.update_current_time(&request.now) {
            Err(e) => {
                return Err(e);
            },
            Ok(()) => {},
        }
        let ttl = match parse_duration(&request.ttl) {
            None => {
                return Err(Status::new(StatusCode::InvalidArgument, "`ttl` is invalid"));
            },
            Some(ttl) => ttl,
        };
        let expiration = self.current_time + ttl;
        if expiration / NANOS_PER_SECOND > i64::MAX as u128 {
            return Err(Status::new(StatusCode::InvalidArgument, "`now` + `ttl` overflowed"));
        }
        let key_id = match self.first_free_key_id(draws) {
            None => {
                return Err(Status::new(StatusCode::Internal, "no free key id"));
            },
            Some(id) => id,
        };
        let public_key = copy_bytes(&keypair.public_key);
        let entry = PerKeyLedger {
            private_key: keypair.private_key,
            public_key: keypair.public_key,
            expiration,
            budget_tracker: BudgetTracker::new(),
        };
        self.put_key(key_id, entry);
        let details = PublicKeyDetails {
            public_key_id: key_id,
            issued: Some(to_timestamp(self.current_time)),
            expiration: Some(to_timestamp(expiration)),
        };
        let public_key_details = details.encode_to_vec();
        Ok(CreateKeyResponse { public_key, public_key_details, attestation: Vec::new() })
    }

    /// Mints a key that lives for `ttl` from `now`, holding `keypair`, under a fresh
    /// random id; reports its public half and its details. Up to `KEY_ID_ATTEMPTS`
    /// ids are drawn; when none is free, or the generator fails, it fails with
    /// `Internal`.
    pub fn create_key(&mut self, request: CreateKeyRequest, keypair: KeyPair) -> (r: Result<
        CreateKeyResponse,
        Status,
    >)
        requires
            old(self).wf(),
        ensures
            final(self).wf(),
            match advance_clock(old(self)@, request.now) {
                Err(c) => code_of(r) == Some(c) && final(self)@ == old(self)@,
                Ok(s) => match duration_value(request.ttl) {
                    None => code_of(r) == Some(StatusCode::InvalidArgument) && final(self)@ == s,
                    Some(ttl) => if !fits_timestamp(s.current_time + ttl) {
                        code_of(r) == Some(StatusCode::InvalidArgument) && final(self)@ == s
                    } else {
                        match r {
                            Ok(resp) => exists|id: u32|
                                !s.keys.contains_key(id) && final(self)@ == with_new_key(
                                    s,
                                    id,
                                    keypair.private_key@,
                                    keypair.public_key@,
                                    s.current_time + ttl,
                                ) && resp.public_key@ == keypair.public_key@
                                    && resp.public_key_details@ == public_key_details_bytes(
                                    details_of(id, s.current_time, s.current_time + ttl),
                                ) && resp.attestation@.len() == 0,
                            Err(e) => e.code == StatusCode::Internal && final(self)@ == s,
                        }
                    },
                },
            },
            timestamp_value(request.now) matches Some(t) && t < old(self)@.current_time ==> (r matches Err(
                e,
            ) && e.code == StatusCode::InvalidArgument && e.message@ == "time must be monotonic"@)
                && final(self)@ == old(self)@,
    {
        let draws = draw_key_ids();
        let ghost start = self@;
        let r = self.create_key_with_draws(request, keypair, draws.as_slice());
        proof {
            if let Ok(s) = advance_clock(start, request.now) {
                lemma_first_free_is_free(s.keys, draws@);
            }
        }
        r
    }

    /// Removes key `public_key_id`, which must be live.
    pub fn delete_key(&mut self, request: DeleteKeyRequest) -> (r: Result<
        DeleteKeyResponse,
        Status,
    >)
        requires
            old(self).wf(),
        ensures
            final(self).wf(),
            final(self)@ == deletion(old(self)@, request.public_key_id).0,
            code_of(r) == match deletion(old(self)@, request.public_key_id).1 {
                Ok(_) => None,
                Err(c) => Some(c),
            },
    {
        let ghost start = self@;
        match self.take_key(request.public_key_id) {
            None => {
                assert(self@.keys =~= start.keys);
                Err(Status::new(StatusCode::NotFound, "public key not found"))
            },
            Some(_) => Ok(DeleteKeyResponse {  }),
        }
    }
}

impl LedgerService {
    /// Revokes `blob_id` under key `public_key_id`, which must be live: every later
    /// request for that blob under that key fails.
    pub fn revoke_access(&mut self, request: RevokeAccessRequest) -> (r: Result<
        RevokeAccessResponse,
        Status,
    >)
        requires
            old(self).wf(),
        ensures
            final(self).wf(),
            final(self)@ == revocation(old(self)@, request.public_key_id, request.blob_id@).0,
            code_of(r) == match revocation(old(self)@, request.public_key_id, request.blob_id@).1 {
                Ok(_) => None,
                Err(c) => Some(c),
            },
    {
        let ghost start = self@;
        let mut e = match self.take_key(request.public_key_id) {
            None => {
                assert(self@.keys =~= start.keys);
                return Err(Status::new(StatusCode::NotFound, "public key not found"));
            },
            Some(e) => e,
        };
        e.budget_tracker.consume_budget(request.blob_id.as_slice());
        self.put_key(request.public_key_id, e);
        proof {
            let id = request.public_key_id;
            assert(self@.keys =~= with_budget(start, id, revoke(start.keys[id].budget, request.blob_id@)).keys);
        }
        Ok(RevokeAccessResponse {  })
    }

    /// Checks an access request whose clock step, attestation and header are done,
    /// given the SHA-256 digest of its policy: on success, the re-wrap to perform.
    /// Changes nothing.
    pub fn check_access(
        &self,
        request: AuthorizeAccessRequest,
        header: BlobHeader,
        policy_digest: &[u8],
        application: &Application,
    ) -> (r: Result<RewrapJob, Status>)
        requires
            self.wf(),
        ensures
            match access_decision(self@, request@, header@, policy_digest@, application.tag@) {
                Ok(job) => r matches Ok(j) && j@ == job,
                Err(c) => code_of(r) == Some(c),
            },
            policy_digest@ != header@.access_policy_sha256 ==> (r matches Err(e) && e.message@
                == "access policy does not match blob header"@),
            policy_digest@ == header@.access_policy_sha256 && access_policy_of(
                request@.access_policy,
            ) is None ==> (r matches Err(e) && e.message@ == "failed to parse access policy"@),
            policy_digest@ == header@.access_policy_sha256 && access_policy_of(
                request@.access_policy,
            ) is Some && !self@.keys.contains_key(header@.public_key_id) ==> (r matches Err(e)
                && e.message@ == "public key not found"@),
    {
        if !bytes_equal(policy_digest, header.access_policy_sha256.as_slice()) {
            return Err(
                Status::new(StatusCode::InvalidArgument, "access policy does not match blob header"),
            );
        }
        let policy = match DataAccessPolicy::decode(request.access_policy.as_slice()) {
            None => {
                return Err(Status::new(StatusCode::InvalidArgument, "failed to parse access policy"));
            },
            Some(p) => p,
        };
        let key = match self.get_key(header.public_key_id) {
            None => {
                return Err(Status::new(StatusCode::NotFound, "public key not found"));
            },
            Some(key) => key,
        };
        let index = match key.budget_tracker.find_matching_transform(
            header.blob_id.as_slice(),
            header.access_policy_node_id,
            &policy,
            header.access_policy_sha256.as_slice(),
            application,
        ) {
            Err(e) => {
                return Err(e);
            },
            Ok(index) => index,
        };
        let mut wrap_associated_data = copy_bytes(&key.public_key);
        wrap_associated_data.extend_from_slice(request.recipient_nonce.as_slice());
        let private_key = copy_bytes(&key.private_key);
        assert(wrap_associated_data@ == key@.public_key + request@.recipient_nonce);
        assert(private_key@ == key@.private_key);
        Ok(
            RewrapJob {
                public_key_id: header.public_key_id,
                blob_id: header.blob_id,
                policy,
                policy_hash: header.access_policy_sha256,
                transform_index: index,
                encrypted_symmetric_key: request.encrypted_symmetric_key,
                encapsulated_key: request.encapsulated_key,
                private_key,
                unwrap_associated_data: request.blob_header,
                recipient_public_key: request.recipient_public_key,
                wrap_associated_data,
            },
        )
    }

    /// Moves the clock to the request's `now` and checks the request against the
    /// attested application (`None` when attestation failed): on success, the
    /// re-wrap to perform, which `finish_access` then records. Only the clock step
    /// changes the ledger.
    pub fn authorize_access(
        &mut self,
        request: AuthorizeAccessRequest,
        recipient_app: Option<Application>,
    ) -> (r: Result<RewrapJob, Status>)
        requires
            old(self).wf(),
        ensures
            final(self).wf(),
            match advance_clock(old(self)@, request.now) {
                Err(c) => code_of(r) == Some(c) && final(self)@ == old(self)@,
                Ok(s) => final(self)@ == s && match access_request_outcome(
                    s,
                    request@,
                    attested_tag(recipient_app),
                ) {
                    Ok(job) => r matches Ok(j) && j@ == job,
                    Err(c) => code_of(r) == Some(c),
                },
            },
            timestamp_value(request.now) matches Some(t) && t < old(self)@.current_time ==> (r matches Err(
                e,
            ) && e.code == StatusCode::InvalidArgument && e.message@ == "time must be monotonic"@)
                && final(self)@ == old(self)@,
            advance_clock(old(self)@, request.now) is Ok && recipient_app is None ==> (
            r matches Err(e) && e.message@ == "attestation validation failed"@),
            advance_clock(old(self)@, request.now) is Ok && recipient_app is Some
                && blob_header_of(request.blob_header@) is None ==> (r matches Err(e)
                && e.message@ == "failed to parse blob header"@),
            advance_clock(old(self)@, request.now) is Ok && recipient_app is Some
                && blob_header_of(request.blob_header@) is Some && sha256_digest(
                request.access_policy@,
            ) != (blob_header_of(request.blob_header@)->0).access_policy_sha256 ==> (r matches Err(
                e,
            ) && e.message@
                == "access policy does not match blob header"@),
            advance_clock(old(self)@, request.now) is Ok && recipient_app is Some
                && blob_header_of(request.blob_header@) is Some && sha256_digest(
                request.access_policy@,
            ) == (blob_header_of(request.blob_header@)->0).access_policy_sha256 && access_policy_of(
                request.access_policy@,
            ) is None ==> (r matches Err(e) && e.message@ == "failed to parse access policy"@),
            advance_clock(old(self)@, request.now) is Ok && recipient_app is Some
                && blob_header_of(request.blob_header@) is Some && sha256_digest(
                request.access_policy@,
            ) == (blob_header_of(request.blob_header@)->0).access_policy_sha256 && access_policy_of(
                request.access_policy@,
            ) is Some && !final(self)@.keys.contains_key(
                (blob_header_of(request.blob_header@)->0).public_key_id,
            ) ==> (r matches Err(e) && e.message@ == "public key not found"@),
    {
        match self.update_current_time(&request.now) {
            Err(e) => {
                return Err(e);
            },
            Ok(()) => {},
        }
        let app = match recipient_app {
            None => {
                return Err(Status::new(StatusCode::InvalidArgument, "attestation validation failed"));
            },
            Some(app) => app,
        };
        let header = match BlobHeader::decode(request.blob_header.as_slice()) {
            None => {
                return Err(Status::new(StatusCode::InvalidArgument, "failed to parse blob header"));
            },
            Some(h) => h,
        };
        let digest = sha256(request.access_policy.as_slice());
        self.check_access(request, header, digest.as_slice(), &app)
    }

    /// Records an approved access once the crypto adapter has re-wrapped its blob
    /// key (`None` when re-wrapping failed, which changes nothing): one use of the
    /// chosen transform is counted and the new key material is returned.
    pub fn finish_access(&mut self, job: &RewrapJob, rewrapped: Option<RewrappedKey>) -> (r:
        Result<AuthorizeAccessResponse, Status>)
        requires
            old(self).wf(),
        ensures
            final(self).wf(),
            ({
                let (s, out) = access_completion(
                    old(self)@,
                    job@,
                    match rewrapped {
                        None => None,
                        Some(k) => Some((k.encapsulated_key@, k.encrypted_symmetric_key@)),
                    },
                );
                final(self)@ == s && match out {
                    Ok((ek, esk, pk)) => r matches Ok(resp) && resp.encapsulated_key@ == ek
                        && resp.encrypted_symmetric_key@ == esk && resp.reencryption_public_key@
                        == pk,
                    Err(c) => code_of(r) == Some(c),
                }
            }),
            rewrapped is None ==> (r matches Err(e) && e.message@
                == "failed to re-wrap symmetric key"@),
            r is Err ==> final(self)@ == old(self)@,
    {
        let rewrapped = match rewrapped {
            None => {
                return Err(
                    Status::new(StatusCode::InvalidArgument, "failed to re-wrap symmetric key"),
                );
            },
            Some(k) => k,
        };
        let ghost start = self@;
        let mut e = match self.take_key(job.public_key_id) {
            None => {
                assert(self@.keys =~= start.keys);
                return Err(Status::new(StatusCode::NotFound, "public key not found"));
            },
            Some(e) => e,
        };
        let ghost taken = e@;
        match e.budget_tracker.update_budget(
            job.blob_id.as_slice(),
            job.transform_index,
            &job.policy,
            job.policy_hash.as_slice(),
        ) {
            Err(err) => {
                self.put_key(job.public_key_id, e);
                proof {
                    assert(e@ == taken);
                    assert(self@.keys =~= start.keys);
                }
                return Err(err);
            },
            Ok(()) => {},
        }
        let reencryption_public_key = copy_bytes(&e.public_key);
        self.put_key(job.public_key_id, e);
        proof {
            let id = job.public_key_id;
            assert(self@.keys =~= with_budget(
                start,
                id,
                record_use(
                    start.keys[id].budget,
                    job@.blob_id,
                    job@.policy,
                    job@.policy_hash,
                    job@.transform_index,
                ),
            ).keys);
        }
        Ok(
            AuthorizeAccessResponse {
                encapsulated_key: rewrapped.encapsulated_key,
                encrypted_symmetric_key: rewrapped.encrypted_symmetric_key,
                reencryption_public_key,
            },
        )
    }
}

} // verus!
