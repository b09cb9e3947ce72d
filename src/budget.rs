//! Per-key bookkeeping of how often each transform of a policy was used on each
//! blob, and of the blobs whose access was revoked.

use vstd::prelude::*;

use crate::messages::{
    AccessBudget, AccessBudgetKind, ApplicationMatcherView, DataAccessPolicy,
    DataAccessPolicyView, TransformView,
};
use crate::status::{Status, StatusCode};
use crate::wire::bytes_equal;

verus! {

/// The requesting application, as its attestation describes it.
#[derive(Clone, Debug)]
pub struct Application {
    pub tag: String,
}

/// Whether a transform's matcher admits an application with tag `tag`: no matcher,
/// or a matcher without a tag, admits every application.
pub open spec fn matcher_admits(m: Option<ApplicationMatcherView>, tag: Seq<char>) -> bool {
    match m {
        None => true,
        Some(mv) => match mv.tag {
            None => true,
            Some(t) => t == tag,
        },
    }
}

/// The number of uses that a transform allows per blob; `None` sets no limit.
pub open spec fn use_limit(t: TransformView) -> Option<nat> {
    match t.access_budget {
        Some(AccessBudget { kind: Some(AccessBudgetKind::Times(n)) }) => Some(n as nat),
        _ => None,
    }
}

/// Whether two strings hold the same characters.
fn same_text(a: &String, b: &String) -> (r: bool)
    ensures
        r == (a@ == b@),
{
    let r = bytes_equal(a.as_str().as_bytes(), b.as_str().as_bytes());
    proof {
        vstd::utf8::encode_utf8_decode_utf8(a@);
        vstd::utf8::encode_utf8_decode_utf8(b@);
    }
    r
}

/// A use of transform `.2` of the policy with digest `.1` on blob `.0`.
pub type UseKey = (Seq<u8>, Seq<u8>, nat);

/// What a budget tracker holds: the uses made of each (blob, policy digest,
/// transform) and the revoked blobs.
pub struct BudgetTrackerView {
    pub uses: Map<UseKey, nat>,
    pub revoked: Set<Seq<u8>>,
}

/// The uses recorded under `k`; none when `k` has no entry.
pub open spec fn uses_of(v: BudgetTrackerView, k: UseKey) -> nat {
    if v.uses.contains_key(k) {
        v.uses[k]
    } else {
        0
    }
}

/// Whether transform `i` of `ts` has budget left for `blob` under digest `hash`.
pub open spec fn has_budget(
    v: BudgetTrackerView,
    blob: Seq<u8>,
    hash: Seq<u8>,
    ts: Seq<TransformView>,
    i: int,
) -> bool {
    match use_limit(ts[i]) {
        None => true,
        Some(n) => uses_of(v, (blob, hash, i as nat)) < n,
    }
}

/// Whether transform `i` both admits the application and has budget left.
pub open spec fn selectable(
    v: BudgetTrackerView,
    blob: Seq<u8>,
    hash: Seq<u8>,
    ts: Seq<TransformView>,
    tag: Seq<char>,
    i: int,
) -> bool {
    0 <= i < ts.len() && matcher_admits(ts[i].application, tag) && has_budget(v, blob, hash, ts, i)
}

/// The first selectable transform at `i` or after it.
pub open spec fn first_selectable(
    v: BudgetTrackerView,
    blob: Seq<u8>,
    hash: Seq<u8>,
    ts: Seq<TransformView>,
    tag: Seq<char>,
    i: int,
) -> Option<nat>
    decreases ts.len() - i,
{
    if i < 0 || i >= ts.len() {
        None
    } else if selectable(v, blob, hash, ts, tag, i) {
        Some(i as nat)
    } else {
        first_selectable(v, blob, hash, ts, tag, i + 1)
    }
}

/// Whether some transform of `ts` admits the application.
pub open spec fn some_admits(ts: Seq<TransformView>, tag: Seq<char>) -> bool {
    exists|i: int| 0 <= i < ts.len() && #[trigger] matcher_admits(ts[i].application, tag)
}

/// Which transform a request for `blob` by an application with tag `tag` is served
/// under: none for a revoked blob; otherwise the first that admits the application
/// and has budget left; when none has, `ResourceExhausted` if one admits the
/// application and `FailedPrecondition` if none does.
pub open spec fn transform_choice(
    v: BudgetTrackerView,
    blob: Seq<u8>,
    policy: DataAccessPolicyView,
    hash: Seq<u8>,
    tag: Seq<char>,
) -> Result<nat, StatusCode> {
    if v.revoked.contains(blob) {
        Err(StatusCode::ResourceExhausted)
    } else {
        match first_selectable(v, blob, hash, policy.transforms, tag, 0) {
            Some(i) => Ok(i),
            None => if some_admits(policy.transforms, tag) {
                Err(StatusCode::ResourceExhausted)
            } else {
                Err(StatusCode::FailedPrecondition)
            },
        }
    }
}

/// The tracker after one use of transform `i` on `blob`: a limited transform
/// counts it; an unlimited one needs no count.
pub open spec fn record_use(
    v: BudgetTrackerView,
    blob: Seq<u8>,
    policy: DataAccessPolicyView,
    hash: Seq<u8>,
    i: nat,
) -> BudgetTrackerView {
    match use_limit(policy.transforms[i as int]) {
        None => v,
        Some(_) => BudgetTrackerView {
            uses: v.uses.insert((blob, hash, i), uses_of(v, (blob, hash, i)) + 1),
            revoked: v.revoked,
        },
    }
}

/// The tracker after `blob` is revoked.
pub open spec fn revoke(v: BudgetTrackerView, blob: Seq<u8>) -> BudgetTrackerView {
    BudgetTrackerView { uses: v.uses, revoked: v.revoked.insert(blob) }
}

/// The tracker that has seen nothing.
pub open spec fn fresh_tracker() -> BudgetTrackerView {
    BudgetTrackerView { uses: Map::empty(), revoked: Set::empty() }
}

/// The tracker after `m` uses of transform `i` on `blob`.
pub open spec fn uses_after(
    v: BudgetTrackerView,
    blob: Seq<u8>,
    policy: DataAccessPolicyView,
    hash: Seq<u8>,
    i: nat,
    m: nat,
) -> BudgetTrackerView
    decreases m,
{
    if m == 0 {
        v
    } else {
        record_use(uses_after(v, blob, policy, hash, i, (m - 1) as nat), blob, policy, hash, i)
    }
}

pub proof fn lemma_uses_after(
    v: BudgetTrackerView,
    blob: Seq<u8>,
    policy: DataAccessPolicyView,
    hash: Seq<u8>,
    i: nat,
    m: nat,
)
    requires
        i < policy.transforms.len(),
        use_limit(policy.transforms[i as int]) is Some,
    ensures
        uses_after(v, blob, policy, hash, i, m).revoked == v.revoked,
        uses_of(uses_after(v, blob, policy, hash, i, m), (blob, hash, i)) == uses_of(
            v,
            (blob, hash, i),
        ) + m,
        forall|k: UseKey|
            k != (blob, hash, i) ==> #[trigger] uses_of(uses_after(v, blob, policy, hash, i, m), k)
                == uses_of(v, k),
    decreases m,
{
    if m > 0 {
        let w = uses_after(v, blob, policy, hash, i, (m - 1) as nat);
        lemma_uses_after(v, blob, policy, hash, i, (m - 1) as nat);
        assert forall|k: UseKey| k != (blob, hash, i) implies #[trigger] uses_of(
            uses_after(v, blob, policy, hash, i, m),
            k,
        ) == uses_of(v, k) by {
            assert(uses_of(w, k) == uses_of(v, k));
        }
    }
}

/// When no transform but `i` admits the application, the search from `p` finds `i`
/// exactly when `i` is selectable and not yet passed.
proof fn lemma_only_candidate(
    v: BudgetTrackerView,
    blob: Seq<u8>,
    hash: Seq<u8>,
    ts: Seq<TransformView>,
    tag: Seq<char>,
    i: int,
    p: int,
)
    requires
        0 <= p,
        0 <= i < ts.len(),
        forall|j: int| 0 <= j < ts.len() && j != i ==> !matcher_admits(ts[j].application, tag),
    ensures
        first_selectable(v, blob, hash, ts, tag, p) == if p <= i && selectable(
            v,
            blob,
            hash,
            ts,
            tag,
            i,
        ) {
            Some(i as nat)
        } else {
            None
        },
    decreases ts.len() - p,
{
    if p < ts.len() {
        lemma_only_candidate(v, blob, hash, ts, tag, i, p + 1);
    }
}

/// A transform's budget runs out: when a request is served under transform `i`,
/// which allows `n` uses, which no use has yet been counted against, and which is
/// the only transform that admits the application, then after each of the next
/// `n - 1` uses the same request is still served under `i`, and after the `n`-th
/// it fails with `ResourceExhausted`.
pub proof fn law_budget_runs_out(
    v: BudgetTrackerView,
    blob: Seq<u8>,
    policy: DataAccessPolicyView,
    hash: Seq<u8>,
    tag: Seq<char>,
    i: nat,
    n: nat,
)
    requires
        transform_choice(v, blob, policy, hash, tag) == Ok::<nat, StatusCode>(i),
        i < policy.transforms.len(),
        use_limit(policy.transforms[i as int]) == Some(n),
        uses_of(v, (blob, hash, i)) == 0,
        forall|j: int|
            0 <= j < policy.transforms.len() && j != i ==> !matcher_admits(
                policy.transforms[j].application,
                tag,
            ),
    ensures
        forall|m: nat|
            m < n ==> transform_choice(
                #[trigger] uses_after(v, blob, policy, hash, i, m),
                blob,
                policy,
                hash,
                tag,
            ) == Ok::<nat, StatusCode>(i),
        transform_choice(uses_after(v, blob, policy, hash, i, n), blob, policy, hash, tag) == Err::<
            nat,
            StatusCode,
        >(StatusCode::ResourceExhausted),
{
    let ts = policy.transforms;
    lemma_only_candidate(v, blob, hash, ts, tag, i as int, 0);
    assert(matcher_admits(ts[i as int].application, tag));
    assert forall|m: nat|
        m < n implies transform_choice(
        #[trigger] uses_after(v, blob, policy, hash, i, m),
        blob,
        policy,
        hash,
        tag,
    ) == Ok::<nat, StatusCode>(i) by {
        let w = uses_after(v, blob, policy, hash, i, m);
        lemma_uses_after(v, blob, policy, hash, i, m);
        lemma_only_candidate(w, blob, hash, ts, tag, i as int, 0);
        assert(selectable(w, blob, hash, ts, tag, i as int));
    }
    let w = uses_after(v, blob, policy, hash, i, n);
    lemma_uses_after(v, blob, policy, hash, i, n);
    lemma_only_candidate(w, blob, hash, ts, tag, i as int, 0);
    assert(!selectable(w, blob, hash, ts, tag, i as int));
    assert(some_admits(ts, tag));
}

/// A revoked blob stays revoked: no request for it is served, under any policy,
/// and neither counting a use nor revoking another blob lifts the revocation.
pub proof fn law_revocation_holds(
    v: BudgetTrackerView,
    blob: Seq<u8>,
    policy: DataAccessPolicyView,
    hash: Seq<u8>,
    tag: Seq<char>,
    other_blob: Seq<u8>,
    other_hash: Seq<u8>,
    i: nat,
)
    requires
        v.revoked.contains(blob),
    ensures
        transform_choice(v, blob, policy, hash, tag) == Err::<nat, StatusCode>(
            StatusCode::ResourceExhausted,
        ),
        record_use(v, other_blob, policy, other_hash, i).revoked.contains(blob),
        revoke(v, other_blob).revoked.contains(blob),
{
}

struct UseEntry {
    blob_id: Vec<u8>,
    policy_hash: Vec<u8>,
    transform_index: usize,
    uses: u32,
}

spec fn entry_key(e: UseEntry) -> UseKey {
    (e.blob_id@, e.policy_hash@, e.transform_index as nat)
}

spec fn has_entry(es: Seq<UseEntry>, k: UseKey) -> bool {
    exists|i: int| 0 <= i < es.len() && #[trigger] entry_key(es[i]) == k
}

spec fn entry_index(es: Seq<UseEntry>, k: UseKey) -> int {
    choose|i: int| 0 <= i < es.len() && #[trigger] entry_key(es[i]) == k
}

spec fn keys_unique(es: Seq<UseEntry>) -> bool {
    forall|i: int, j: int|
        0 <= i < es.len() && 0 <= j < es.len() && i != j ==> entry_key(es[i]) != entry_key(
            es[j],
        )
}

spec fn listed(rs: Seq<Vec<u8>>, b: Seq<u8>) -> bool {
    exists|i: int| 0 <= i < rs.len() && #[trigger] rs[i]@ == b
}

spec fn uses_map(es: Seq<UseEntry>) -> Map<UseKey, nat> {
    Map::new(|k: UseKey| has_entry(es, k), |k: UseKey| es[entry_index(es, k)].uses as nat)
}

/// The uses of each transform on each blob under one key, and the revoked blobs.
pub struct BudgetTracker {
    entries: Vec<UseEntry>,
    revoked: Vec<Vec<u8>>,
}

impl View for BudgetTracker {
    type V = BudgetTrackerView;

    closed spec fn view(&self) -> BudgetTrackerView {
        BudgetTrackerView {
            uses: uses_map(self.entries@),
            revoked: Set::new(|b: Seq<u8>| listed(self.revoked@, b)),
        }
    }
}

proof fn lemma_entry_value(es: Seq<UseEntry>, i: int)
    requires
        keys_unique(es),
        0 <= i < es.len(),
    ensures
        uses_map(es).contains_key(entry_key(es[i])),
        uses_map(es)[entry_key(es[i])] == es[i].uses as nat,
{
    let k = entry_key(es[i]);
    assert(has_entry(es, k));
    let j = entry_index(es, k);
    assert(entry_key(es[j]) == k);
}

impl BudgetTracker {
    /// The tracker's entries have one key each.
    pub closed spec fn wf(&self) -> bool {
        keys_unique(self.entries@)
    }

    /// A tracker that has seen nothing.
    pub fn new() -> (r: BudgetTracker)
        ensures
            r.wf(),
            r@ == fresh_tracker(),
    {
        let r = BudgetTracker { entries: Vec::new(), revoked: Vec::new() };
        assert(r@.uses =~= Map::<UseKey, nat>::empty());
        assert(r@.revoked =~= Set::<Seq<u8>>::empty());
        r
    }

    fn is_revoked(&self, blob_id: &[u8]) -> (r: bool)
        ensures
            r == self@.revoked.contains(blob_id@),
    {
        let mut i: usize = 0;
        while i < self.revoked.len()
            invariant
                i <= self.revoked@.len(),
                forall|j: int| 0 <= j < i ==> self.revoked@[j]@ != blob_id@,
            decreases self.revoked.len() - i,
        {
            if bytes_equal(self.revoked[i].as_slice(), blob_id) {
                assert(self.revoked@[i as int]@ == blob_id@);
                return true;
            }
            i = i + 1;
        }
        false
    }

    fn find_entry(&self, blob_id: &[u8], policy_hash: &[u8], index: usize) -> (r: Option<usize>)
        ensures
            match r {
                Some(i) => i < self.entries@.len() && entry_key(self.entries@[i as int]) == (
                    blob_id@,
                    policy_hash@,
                    index as nat,
                ),
                None => !has_entry(self.entries@, (blob_id@, policy_hash@, index as nat)),
            },
    {
        let mut i: usize = 0;
        while i < self.entries.len()
            invariant
                i <= self.entries@.len(),
                forall|j: int|
                    0 <= j < i ==> entry_key(self.entries@[j]) != (
                        blob_id@,
                        policy_hash@,
                        index as nat,
                    ),
            decreases self.entries.len() - i,
        {
            let e = &self.entries[i];
            if e.transform_index == index && bytes_equal(e.blob_id.as_slice(), blob_id)
                && bytes_equal(e.policy_hash.as_slice(), policy_hash) {
                return Some(i);
            }
            i = i + 1;
        }
        None
    }

    /// The uses recorded for transform `index` on `blob_id` under `policy_hash`.
    fn uses(&self, blob_id: &[u8], policy_hash: &[u8], index: usize) -> (r: u32)
        requires
            self.wf(),
        ensures
            r as nat == uses_of(self@, (blob_id@, policy_hash@, index as nat)),
    {
        match self.find_entry(blob_id, policy_hash, index) {
            Some(i) => {
                proof {
                    lemma_entry_value(self.entries@, i as int);
                }
                self.entries[i].uses
            },
            None => 0,
        }
    }

    /// Whether transform `i` of `policy` has budget left for `blob_id`.
    fn budget_left(
        &self,
        blob_id: &[u8],
        policy: &DataAccessPolicy,
        policy_hash: &[u8],
        i: usize,
    ) -> (r: bool)
        requires
            self.wf(),
            i < policy@.transforms.len(),
        ensures
            r == has_budget(self@, blob_id@, policy_hash@, policy@.transforms, i as int),
    {
        match policy.transforms[i].access_budget {
            Some(AccessBudget { kind: Some(AccessBudgetKind::Times(n)) }) => {
                self.uses(blob_id, policy_hash, i) < n
            },
            _ => true,
        }
    }

    /// Picks the transform of `policy` under which `application` may use `blob_id`:
    /// the first that admits it and has budget left. The policy's node id is not
    /// consulted.
    pub fn find_matching_transform(
        &self,
        blob_id: &[u8],
        node_id: u32,
        policy: &DataAccessPolicy,
        policy_hash: &[u8],
        application: &Application,
    ) -> (r: Result<usize, Status>)
        requires
            self.wf(),
        ensures
            match transform_choice(self@, blob_id@, policy@, policy_hash@, application.tag@) {
                Ok(i) => r matches Ok(j) && j == i,
                Err(c) => r matches Err(e) && e.code == c,
            },
    {
        if self.is_revoked(blob_id) {
            return Err(Status::new(StatusCode::ResourceExhausted, "data access budget consumed"));
        }
        let ghost ts = policy@.transforms;
        let ghost tag = application.tag@;
        let mut admitted = false;
        let mut i: usize = 0;
        while i < policy.transforms.len()
            invariant
                self.wf(),
                !self@.revoked.contains(blob_id@),
                ts == policy@.transforms,
                tag == application.tag@,
                ts.len() == policy.transforms@.len(),
                i <= ts.len(),
                first_selectable(self@, blob_id@, policy_hash@, ts, tag, 0) == first_selectable(
                    self@,
                    blob_id@,
                    policy_hash@,
                    ts,
                    tag,
                    i as int,
                ),
                admitted ==> some_admits(ts, tag),
                !admitted ==> forall|j: int| 0 <= j < i ==> !matcher_admits(ts[j].application, tag),
            decreases policy.transforms.len() - i,
        {
            let t = &policy.transforms[i];
            assert(ts[i as int] == t@);
            let admits = match &t.application {
                None => true,
                Some(m) => match &m.tag {
                    None => true,
                    Some(want) => same_text(want, &application.tag),
                },
            };
            assert(admits == matcher_admits(ts[i as int].application, tag));
            if admits {
                admitted = true;
                if self.budget_left(blob_id, policy, policy_hash, i) {
                    assert(selectable(self@, blob_id@, policy_hash@, ts, tag, i as int));
                    return Ok(i);
                }
            }
            i = i + 1;
        }
        if admitted {
            Err(Status::new(StatusCode::ResourceExhausted, "no budget remaining"))
        } else {
            Err(
                Status::new(
                    StatusCode::FailedPrecondition,
                    "requesting application does not match the access policy",
                ),
            )
        }
    }

    /// Records one use of transform `index` of `policy` on `blob_id`. Fails, and
    /// changes nothing, when that transform has no budget left.
    pub fn update_budget(
        &mut self,
        blob_id: &[u8],
        index: usize,
        policy: &DataAccessPolicy,
        policy_hash: &[u8],
    ) -> (r: Result<(), Status>)
        requires
            old(self).wf(),
        ensures
            final(self).wf(),
            index < policy@.transforms.len() && has_budget(
                old(self)@,
                blob_id@,
                policy_hash@,
                policy@.transforms,
                index as int,
            ) ==> r is Ok && final(self)@ == record_use(
                old(self)@,
                blob_id@,
                policy@,
                policy_hash@,
                index as nat,
            ),
            !(index < policy@.transforms.len() && has_budget(
                old(self)@,
                blob_id@,
                policy_hash@,
                policy@.transforms,
                index as int,
            )) ==> (r matches Err(e) && e.code == StatusCode::Internal) && final(self)@ == old(self)@,
    {
        if index >= policy.transforms.len() || !self.budget_left(
            blob_id,
            policy,
            policy_hash,
            index,
        ) {
            return Err(Status::new(StatusCode::Internal, "no budget remaining"));
        }
        let ghost k = (blob_id@, policy_hash@, index as nat);
        let ghost before = self.entries@;
        let n = match policy.transforms[index].access_budget {
            Some(AccessBudget { kind: Some(AccessBudgetKind::Times(n)) }) => n,
            _ => {
                return Ok(());
            },
        };
        match self.find_entry(blob_id, policy_hash, index) {
            Some(i) => {
                proof {
                    lemma_entry_value(before, i as int);
                }
                let e = &self.entries[i];
                let updated = UseEntry {
                    blob_id: e.blob_id.clone(),
                    policy_hash: e.policy_hash.clone(),
                    transform_index: e.transform_index,
                    uses: e.uses + 1,
                };
                assert(entry_key(updated) == k);
                self.entries.set(i, updated);
                proof {
                    let after = self.entries@;
                    assert forall|a: int, b: int|
                        0 <= a < after.len() && 0 <= b < after.len() && a != b implies entry_key(
                            after[a],
                        ) != entry_key(after[b]) by {
                        assert(entry_key(after[a]) == entry_key(before[a]));
                        assert(entry_key(after[b]) == entry_key(before[b]));
                    }
                    assert forall|k2: UseKey| has_entry(after, k2) == has_entry(before, k2) by {
                        if has_entry(after, k2) {
                            let j = entry_index(after, k2);
                            assert(entry_key(before[j]) == k2);
                        }
                        if has_entry(before, k2) {
                            let j = entry_index(before, k2);
                            assert(entry_key(after[j]) == k2);
                        }
                    }
                    assert forall|k2: UseKey| #[trigger]
                        uses_map(after).contains_key(k2) && k2 != k implies uses_map(after)[k2]
                        == uses_map(before)[k2] by {
                        let j = entry_index(after, k2);
                        assert(entry_key(after[j]) == k2);
                        assert(j != i);
                        assert(entry_key(before[j]) == k2);
                        lemma_entry_value(before, j);
                    }
                    lemma_entry_value(after, i as int);
                    assert(uses_map(after) =~= uses_map(before).insert(k, before[i as int].uses as nat + 1));
                }
            },
            None => {
                let entry = UseEntry {
                    blob_id: vstd::slice::slice_to_vec(blob_id),
                    policy_hash: vstd::slice::slice_to_vec(policy_hash),
                    transform_index: index,
                    uses: 1,
                };
                assert(entry_key(entry) == k);
                self.entries.push(entry);
                proof {
                    let after = self.entries@;
                    assert(after == before.push(entry));
                    assert forall|a: int, b: int|
                        0 <= a < after.len() && 0 <= b < after.len() && a != b implies entry_key(
                            after[a],
                        ) != entry_key(after[b]) by {
                        if a == before.len() {
                            assert(entry_key(before[b]) != k);
                        } else if b == before.len() {
                            assert(entry_key(before[a]) != k);
                        }
                    }
                    assert forall|k2: UseKey| k2 != k implies has_entry(after, k2) == has_entry(
                        before,
                        k2,
                    ) by {
                        if has_entry(after, k2) {
                            let j = entry_index(after, k2);
                            assert(entry_key(before[j]) == k2);
                        }
                        if has_entry(before, k2) {
                            let j = entry_index(before, k2);
                            assert(entry_key(after[j]) == k2);
                        }
                    }
                    assert forall|k2: UseKey| #[trigger]
                        uses_map(after).contains_key(k2) && k2 != k implies uses_map(after)[k2]
                        == uses_map(before)[k2] by {
                        let j = entry_index(after, k2);
                        assert(entry_key(after[j]) == k2);
                        assert(j != before.len());
                        assert(entry_key(before[j]) == k2);
                        lemma_entry_value(before, j);
                    }
                    lemma_entry_value(after, before.len() as int);
                    assert(uses_map(after) =~= uses_map(before).insert(k, 1));
                }
            },
        }
        Ok(())
    }

    /// Revokes `blob_id`: every later request for it fails.
    pub fn consume_budget(&mut self, blob_id: &[u8])
        requires
            old(self).wf(),
        ensures
            final(self).wf(),
            final(self)@ == revoke(old(self)@, blob_id@),
    {
        if self.is_revoked(blob_id) {
            assert(self@.revoked.insert(blob_id@) =~= self@.revoked);
            return;
        }
        let ghost before = self.revoked@;
        self.revoked.push(vstd::slice::slice_to_vec(blob_id));
        proof {
            let after = self.revoked@;
            assert(after[before.len() as int]@ == blob_id@);
            assert forall|b: Seq<u8>| #[trigger]
                listed(after, b) == (listed(before, b) || b == blob_id@) by {
                if listed(after, b) {
                    let i = choose|i: int| 0 <= i < after.len() && #[trigger] after[i]@ == b;
                    if i < before.len() {
                        assert(before[i]@ == b);
                    }
                }
                if listed(before, b) {
                    let i = choose|i: int| 0 <= i < before.len() && #[trigger] before[i]@ == b;
                    assert(after[i]@ == b);
                }
            }
        }
        assert(self@.revoked =~= old(self)@.revoked.insert(blob_id@));
        assert(self@.uses == old(self)@.uses);
    }
}

} // verus!
