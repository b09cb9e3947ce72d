//! Properties of the ledger that relate several operations, stated over the
//! spec functions in which the operations' contracts are written.

use vstd::prelude::*;

use crate::budget::{
    law_budget_runs_out, law_revocation_holds, matcher_admits, revoke, transform_choice,
    lemma_uses_after, uses_after, uses_of, use_limit,
};
use crate::ledger::{
    access_completion, access_decision, access_request_outcome, advance_clock, deletion,
    revocation, sha256_digest, unexpired, with_budget, with_new_key, AuthorizeAccessRequestView, LedgerView,
    RewrapJobView,
};
use crate::messages::{access_policy_of, blob_header_of, BlobHeaderView};
use crate::status::StatusCode;
use crate::time::{timestamp_value, Timestamp};

verus! {

/// The clock never brings a key back: every key live after a clock step was live
/// before it, unchanged.
pub proof fn law_clock_adds_no_keys(s: LedgerView, now: Option<Timestamp>, id: u32)
    requires
        advance_clock(s, now) is Ok,
    ensures
        (advance_clock(s, now)->Ok_0).keys.contains_key(id) ==> s.keys.contains_key(id) && (
        advance_clock(s, now)->Ok_0).keys[id] == s.keys[id],
{
}

/// A key whose expiration `now` has reached is gone after the clock step.
pub proof fn law_expired_key_evicted(s: LedgerView, now: Option<Timestamp>, id: u32)
    requires
        advance_clock(s, now) is Ok,
        s.keys.contains_key(id),
        timestamp_value(now)->0 >= s.keys[id].expiration,
    ensures
        !(advance_clock(s, now)->Ok_0).keys.contains_key(id),
{
}

/// A deleted key is gone.
pub proof fn law_deleted_key_gone(s: LedgerView, id: u32)
    ensures
        !deletion(s, id).0.keys.contains_key(id),
{
}

/// Every operation that names a key that is not live fails with `NotFound`:
/// deleting it, revoking a blob under it, recording an access under it, and an
/// access request whose header names it once its policy checks have passed; and it
/// stays missing as the clock moves.
pub proof fn law_missing_key_not_found(
    s: LedgerView,
    id: u32,
    blob: Seq<u8>,
    req: AuthorizeAccessRequestView,
    header: BlobHeaderView,
    tag: Seq<char>,
    job: RewrapJobView,
    rewrapped: (Seq<u8>, Seq<u8>),
    now: Option<Timestamp>,
)
    requires
        !s.keys.contains_key(id),
    ensures
        deletion(s, id) == (s, Err::<(), StatusCode>(StatusCode::NotFound)),
        revocation(s, id, blob) == (s, Err::<(), StatusCode>(StatusCode::NotFound)),
        job.public_key_id == id ==> access_completion(s, job, Some(rewrapped)).1 == Err::<
            (Seq<u8>, Seq<u8>, Seq<u8>),
            StatusCode,
        >(StatusCode::NotFound),
        header.public_key_id == id && access_policy_of(req.access_policy) is Some ==> access_decision(
            s,
            req,
            header,
            header.access_policy_sha256,
            tag,
        ) == Err::<RewrapJobView, StatusCode>(StatusCode::NotFound),
        advance_clock(s, now) is Ok ==> !(advance_clock(s, now)->Ok_0).keys.contains_key(id),
{
}

/// Key ids never collide while both keys live: a key id that `create_key` draws is
/// never that of a key still live after its clock step, so a key created after
/// another, before the first expires, has another id.
pub proof fn law_fresh_key_ids(
    s: LedgerView,
    first: u32,
    private_key: Seq<u8>,
    public_key: Seq<u8>,
    expiration: int,
    now: Option<Timestamp>,
    second: u32,
)
    requires
        advance_clock(with_new_key(s, first, private_key, public_key, expiration), now) is Ok,
        timestamp_value(now)->0 < expiration,
        !(advance_clock(with_new_key(s, first, private_key, public_key, expiration), now)->Ok_0).keys.contains_key(
            second,
        ),
    ensures
        first != second,
{
    let s1 = with_new_key(s, first, private_key, public_key, expiration);
    assert(s1.keys.contains_key(first));
    assert(unexpired(s1.keys, timestamp_value(now)->0).contains_key(first));
}

/// A blob revoked under a key is refused under that key with `ResourceExhausted`,
/// whatever policy the request carries, once the policy checks have passed; a
/// later clock step that keeps the key keeps the revocation.
pub proof fn law_revoked_blob_refused(
    s: LedgerView,
    id: u32,
    blob: Seq<u8>,
    req: AuthorizeAccessRequestView,
    header: BlobHeaderView,
    tag: Seq<char>,
    now: Option<Timestamp>,
)
    requires
        revocation(s, id, blob).1 is Ok,
        header.public_key_id == id,
        header.blob_id == blob,
        access_policy_of(req.access_policy) is Some,
    ensures
        access_decision(revocation(s, id, blob).0, req, header, header.access_policy_sha256, tag)
            == Err::<RewrapJobView, StatusCode>(StatusCode::ResourceExhausted),
        advance_clock(revocation(s, id, blob).0, now) is Ok && (advance_clock(
            revocation(s, id, blob).0,
            now,
        )->Ok_0).keys.contains_key(id) ==> (advance_clock(revocation(s, id, blob).0, now)->Ok_0).keys[id].budget.revoked.contains(
            blob,
        ),
{
    let s1 = revocation(s, id, blob).0;
    assert(s1.keys[id].budget == revoke(s.keys[id].budget, blob));
    let policy = access_policy_of(req.access_policy)->0;
    law_revocation_holds(
        s1.keys[id].budget,
        blob,
        policy,
        header.access_policy_sha256,
        tag,
        blob,
        header.access_policy_sha256,
        0,
    );
}

/// A failed re-wrap changes nothing, and neither does a use that no longer has
/// budget when it is recorded.
pub proof fn law_failed_rewrap_keeps_state(
    s: LedgerView,
    job: RewrapJobView,
    rewrapped: Option<(Seq<u8>, Seq<u8>)>,
)
    ensures
        access_completion(s, job, None) == (s, Err::<(Seq<u8>, Seq<u8>, Seq<u8>), StatusCode>(
            StatusCode::InvalidArgument,
        )),
        access_completion(s, job, rewrapped).1 is Err ==> access_completion(s, job, rewrapped).0
            == s,
{
}

/// A policy whose SHA-256 digest is not the one that the header commits to is
/// refused with `InvalidArgument`, whether the policy bytes or the committed
/// digest were altered.
pub proof fn law_tampered_policy_refused(
    s: LedgerView,
    req: AuthorizeAccessRequestView,
    tag: Seq<char>,
)
    requires
        blob_header_of(req.blob_header) is Some,
        sha256_digest(req.access_policy) != (blob_header_of(req.blob_header)->0).access_policy_sha256,
    ensures
        access_request_outcome(s, req, Some(tag)) == Err::<RewrapJobView, StatusCode>(
            StatusCode::InvalidArgument,
        ),
{
}

/// One access end to end: the request is authorized for the application with tag
/// `tag`, the crypto adapter re-wraps the key to `rewrapped`, and the use is recorded.
/// By their contracts, `authorize_access` followed by `finish_access` on the job it
/// returned leaves the ledger and yields the result that this gives.
pub open spec fn access_round(
    s: LedgerView,
    req: AuthorizeAccessRequestView,
    tag: Seq<char>,
    rewrapped: (Seq<u8>, Seq<u8>),
) -> (LedgerView, Result<(Seq<u8>, Seq<u8>, Seq<u8>), StatusCode>) {
    match advance_clock(s, req.now) {
        Err(c) => (s, Err(c)),
        Ok(s1) => match access_request_outcome(s1, req, Some(tag)) {
            Err(c) => (s1, Err(c)),
            Ok(job) => access_completion(s1, job, Some(rewrapped)),
        },
    }
}

/// The ledger after `m` rounds of the same access.
pub open spec fn repeated_rounds(
    s: LedgerView,
    req: AuthorizeAccessRequestView,
    tag: Seq<char>,
    rewrapped: (Seq<u8>, Seq<u8>),
    m: nat,
) -> LedgerView
    decreases m,
{
    if m == 0 {
        s
    } else {
        access_round(repeated_rounds(s, req, tag, rewrapped, (m - 1) as nat), req, tag, rewrapped).0
    }
}

proof fn lemma_round_from(
    s0: LedgerView,
    req: AuthorizeAccessRequestView,
    tag: Seq<char>,
    rewrapped: (Seq<u8>, Seq<u8>),
    i: nat,
    n: nat,
    m: nat,
)
    requires
        advance_clock(s0, req.now) is Ok,
        blob_header_of(req.blob_header) is Some,
        access_policy_of(req.access_policy) is Some,
        ({
            let s1 = advance_clock(s0, req.now)->Ok_0;
            let h = blob_header_of(req.blob_header)->0;
            let p = access_policy_of(req.access_policy)->0;
            &&& sha256_digest(req.access_policy) == h.access_policy_sha256
            &&& s1.keys.contains_key(h.public_key_id)
            &&& transform_choice(
                s1.keys[h.public_key_id].budget,
                h.blob_id,
                p,
                h.access_policy_sha256,
                tag,
            ) == Ok::<nat, StatusCode>(i)
            &&& i < p.transforms.len()
            &&& use_limit(p.transforms[i as int]) == Some(n)
            &&& uses_of(s1.keys[h.public_key_id].budget, (h.blob_id, h.access_policy_sha256, i))
                == 0
            &&& forall|j: int|
                0 <= j < p.transforms.len() && j != i ==> !matcher_admits(
                    p.transforms[j].application,
                    tag,
                )
        }),
        m <= n,
    ensures
        ({
            let s1 = advance_clock(s0, req.now)->Ok_0;
            let h = blob_header_of(req.blob_header)->0;
            let p = access_policy_of(req.access_policy)->0;
            let b = uses_after(
                s1.keys[h.public_key_id].budget,
                h.blob_id,
                p,
                h.access_policy_sha256,
                i,
                m,
            );
            let sm = with_budget(s1, h.public_key_id, b);
            &&& (m == 0 ==> access_round(s0, req, tag, rewrapped) == access_round(sm, req, tag, rewrapped))
            &&& advance_clock(sm, req.now) == Ok::<LedgerView, StatusCode>(sm)
            &&& (m < n ==> access_round(sm, req, tag, rewrapped).1 is Ok && access_round(
                sm,
                req,
                tag,
                rewrapped,
            ).0 == with_budget(
                s1,
                h.public_key_id,
                uses_after(
                    s1.keys[h.public_key_id].budget,
                    h.blob_id,
                    p,
                    h.access_policy_sha256,
                    i,
                    m + 1,
                ),
            ))
            &&& (m == n ==> access_round(sm, req, tag, rewrapped).1 == Err::<
                (Seq<u8>, Seq<u8>, Seq<u8>),
                StatusCode,
            >(StatusCode::ResourceExhausted))
        }),
{
    let s1 = advance_clock(s0, req.now)->Ok_0;
    let h = blob_header_of(req.blob_header)->0;
    let p = access_policy_of(req.access_policy)->0;
    let k = h.public_key_id;
    let b0 = s1.keys[k].budget;
    let b = uses_after(b0, h.blob_id, p, h.access_policy_sha256, i, m);
    let sm = with_budget(s1, k, b);
    let t = s1.current_time;
    law_budget_runs_out(b0, h.blob_id, p, h.access_policy_sha256, tag, i, n);
    assert(uses_after(b0, h.blob_id, p, h.access_policy_sha256, i, m) == b);
    // The clock step at the same time drops nothing.
    assert forall|id: u32| #[trigger] sm.keys.contains_key(id) implies sm.keys[id].expiration > t by {
        assert(s1.keys.contains_key(id));
    }
    assert(unexpired(sm.keys, t) =~= sm.keys);
    assert(timestamp_value(req.now) == Some(t));
    assert(advance_clock(sm, req.now) == Ok::<LedgerView, StatusCode>(sm));
    if m == 0 {
        assert(b == b0);
        assert(sm.keys =~= s1.keys);
        assert(sm == s1);
        assert(advance_clock(s0, req.now) == Ok::<LedgerView, StatusCode>(s1));
    }
    let next = uses_after(b0, h.blob_id, p, h.access_policy_sha256, i, m + 1);
    lemma_uses_after(b0, h.blob_id, p, h.access_policy_sha256, i, m);
    assert(sm.keys.contains_key(k) && sm.keys[k].budget == b);
    if m < n {
        assert(transform_choice(b, h.blob_id, p, h.access_policy_sha256, tag) == Ok::<
            nat,
            StatusCode,
        >(i));
        assert(with_budget(sm, k, next).keys =~= with_budget(s1, k, next).keys);
    }
}

/// A budget of `n` uses runs out: when an access is served under a transform
/// that allows `n` uses, has none counted yet, and is the only transform that
/// admits the application, then the next `n - 1` equal accesses are served and
/// the `n`-th fails with `ResourceExhausted`.
pub proof fn law_access_budget_runs_out(
    s0: LedgerView,
    req: AuthorizeAccessRequestView,
    tag: Seq<char>,
    rewrapped: (Seq<u8>, Seq<u8>),
    i: nat,
    n: nat,
)
    requires
        advance_clock(s0, req.now) is Ok,
        access_request_outcome(advance_clock(s0, req.now)->Ok_0, req, Some(tag)) matches Ok(job)
            && job.transform_index == i,
        access_policy_of(req.access_policy) is Some,
        ({
            let s1 = advance_clock(s0, req.now)->Ok_0;
            let h = blob_header_of(req.blob_header)->0;
            let p = access_policy_of(req.access_policy)->0;
            &&& i < p.transforms.len()
            &&& use_limit(p.transforms[i as int]) == Some(n)
            &&& uses_of(s1.keys[h.public_key_id].budget, (h.blob_id, h.access_policy_sha256, i))
                == 0
            &&& forall|j: int|
                0 <= j < p.transforms.len() && j != i ==> !matcher_admits(
                    p.transforms[j].application,
                    tag,
                )
        }),
    ensures
        access_round(s0, req, tag, rewrapped).1 is Ok,
        forall|m: nat|
            1 <= m < n ==> (#[trigger] access_round(
                repeated_rounds(s0, req, tag, rewrapped, m),
                req,
                tag,
                rewrapped,
            )).1 is Ok,
        access_round(repeated_rounds(s0, req, tag, rewrapped, n), req, tag, rewrapped).1 == Err::<
            (Seq<u8>, Seq<u8>, Seq<u8>),
            StatusCode,
        >(StatusCode::ResourceExhausted),
{
    let s1 = advance_clock(s0, req.now)->Ok_0;
    let h = blob_header_of(req.blob_header)->0;
    let p = access_policy_of(req.access_policy)->0;
    let k = h.public_key_id;
    let b0 = s1.keys[k].budget;
    assert(blob_header_of(req.blob_header) is Some);
    assert(sha256_digest(req.access_policy) == h.access_policy_sha256);
    assert(s1.keys.contains_key(k));
    assert(transform_choice(b0, h.blob_id, p, h.access_policy_sha256, tag) == Ok::<
        nat,
        StatusCode,
    >(i));
    assert forall|m: nat| 1 <= m <= n implies repeated_rounds(s0, req, tag, rewrapped, m)
        == with_budget(s1, k, uses_after(b0, h.blob_id, p, h.access_policy_sha256, i, m)) by {
        lemma_rounds_reach(s0, req, tag, rewrapped, i, n, m);
    }
    lemma_round_from(s0, req, tag, rewrapped, i, n, 0);
    assert forall|m: nat| 1 <= m < n implies (#[trigger] access_round(
        repeated_rounds(s0, req, tag, rewrapped, m),
        req,
        tag,
        rewrapped,
    )).1 is Ok by {
        lemma_round_from(s0, req, tag, rewrapped, i, n, m);
    }
    if n >= 1 {
        lemma_round_from(s0, req, tag, rewrapped, i, n, n);
    } else {
        lemma_round_from(s0, req, tag, rewrapped, i, n, 0);
    }
}

proof fn lemma_rounds_reach(
    s0: LedgerView,
    req: AuthorizeAccessRequestView,
    tag: Seq<char>,
    rewrapped: (Seq<u8>, Seq<u8>),
    i: nat,
    n: nat,
    m: nat,
)
    requires
        advance_clock(s0, req.now) is Ok,
        access_request_outcome(advance_clock(s0, req.now)->Ok_0, req, Some(tag)) matches Ok(job)
            && job.transform_index == i,
        access_policy_of(req.access_policy) is Some,
        ({
            let s1 = advance_clock(s0, req.now)->Ok_0;
            let h = blob_header_of(req.blob_header)->0;
            let p = access_policy_of(req.access_policy)->0;
            &&& i < p.transforms.len()
            &&& use_limit(p.transforms[i as int]) == Some(n)
            &&& uses_of(s1.keys[h.public_key_id].budget, (h.blob_id, h.access_policy_sha256, i))
                == 0
            &&& forall|j: int|
                0 <= j < p.transforms.len() && j != i ==> !matcher_admits(
                    p.transforms[j].application,
                    tag,
                )
        }),
        m <= n,
    ensures
        ({
            let s1 = advance_clock(s0, req.now)->Ok_0;
            let h = blob_header_of(req.blob_header)->0;
            let p = access_policy_of(req.access_policy)->0;
            m >= 1 ==> repeated_rounds(s0, req, tag, rewrapped, m) == with_budget(
                s1,
                h.public_key_id,
                uses_after(
                    s1.keys[h.public_key_id].budget,
                    h.blob_id,
                    p,
                    h.access_policy_sha256,
                    i,
                    m,
                ),
            )
        }),
    decreases m,
{
    let s1 = advance_clock(s0, req.now)->Ok_0;
    let h = blob_header_of(req.blob_header)->0;
    let p = access_policy_of(req.access_policy)->0;
    let k = h.public_key_id;
    let b0 = s1.keys[k].budget;
    assert(sha256_digest(req.access_policy) == h.access_policy_sha256);
    assert(s1.keys.contains_key(k));
    assert(transform_choice(b0, h.blob_id, p, h.access_policy_sha256, tag) == Ok::<
        nat,
        StatusCode,
    >(i));
    if m >= 1 {
        let prev = (m - 1) as nat;
        lemma_rounds_reach(s0, req, tag, rewrapped, i, n, prev);
        lemma_round_from(s0, req, tag, rewrapped, i, n, prev);
        if prev == 0 {
            assert(repeated_rounds(s0, req, tag, rewrapped, 0) == s0);
        }
    }
}

/// A timestamp earlier than the clock is refused with `InvalidArgument`.
pub proof fn law_time_is_monotonic(s: LedgerView, now: Option<Timestamp>)
    requires
        timestamp_value(now) matches Some(t) && t < s.current_time,
    ensures
        advance_clock(s, now) == Err::<LedgerView, StatusCode>(StatusCode::InvalidArgument),
{
}

} // verus!
