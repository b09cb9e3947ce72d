//! The ledger's messages and their byte form: the blob header, the data access
//! policy, and the public key details.

use vstd::prelude::*;
use vstd::utf8::{decode_utf8, encode_utf8, valid_utf8};

use crate::time::Timestamp;
use crate::wire::{
    bytes_field, field_at, fold_fields, lemma_field_bounds, lemma_len_field_at, lemma_varint_bytes_len_u64,
    lemma_varint_field_at,
    len_field, read_field, scalar_field, span_bytes, varint_field, write_bytes_field,
    write_len_field, write_scalar_field, write_varint_field, Field, FieldBody,
};

verus! {

/// Relies on `String::from_utf8`: it succeeds exactly on valid UTF-8, and the
/// string then holds the characters that the bytes encode.
#[verifier::external_body]
fn string_from_utf8(b: Vec<u8>) -> (r: Option<String>)
    ensures
        r is Some <==> valid_utf8(b@),
        r matches Some(s) ==> s@ == decode_utf8(b@),
{
    String::from_utf8(b).ok()
}

// ------------------------------------------------------------------ blob header

/// The header that a client binds to a blob as associated data: which blob, which
/// ledger key encrypted it, and the SHA-256 digest of its access policy.
#[derive(Clone, Debug)]
pub struct BlobHeader {
    pub blob_id: Vec<u8>,
    pub public_key_id: u32,
    pub access_policy_sha256: Vec<u8>,
    pub access_policy_node_id: u32,
}

pub struct BlobHeaderView {
    pub blob_id: Seq<u8>,
    pub public_key_id: u32,
    pub access_policy_sha256: Seq<u8>,
    pub access_policy_node_id: u32,
}

impl View for BlobHeader {
    type V = BlobHeaderView;

    open spec fn view(&self) -> BlobHeaderView {
        BlobHeaderView {
            blob_id: self.blob_id@,
            public_key_id: self.public_key_id,
            access_policy_sha256: self.access_policy_sha256@,
            access_policy_node_id: self.access_policy_node_id,
        }
    }
}

pub open spec fn empty_header() -> BlobHeaderView {
    BlobHeaderView {
        blob_id: Seq::empty(),
        public_key_id: 0,
        access_policy_sha256: Seq::empty(),
        access_policy_node_id: 0,
    }
}

/// Folds one field of a blob header in `s`: 1 blob id, 2 key id, 3 policy digest,
/// 4 policy node id; other fields are skipped.
pub open spec fn header_step(s: Seq<u8>) -> spec_fn(BlobHeaderView, Field) -> Option<BlobHeaderView> {
    |h: BlobHeaderView, f: Field|
        if f.number == 1 {
            match f.body {
                FieldBody::Span(a, b) => Some(
                    BlobHeaderView {
                        blob_id: s.subrange(a as int, b as int),
                        public_key_id: h.public_key_id,
                        access_policy_sha256: h.access_policy_sha256,
                        access_policy_node_id: h.access_policy_node_id,
                    },
                ),
                _ => None,
            }
        } else if f.number == 2 {
            match f.body {
                FieldBody::Varint(v) => Some(
                    BlobHeaderView {
                        blob_id: h.blob_id,
                        public_key_id: v as u32,
                        access_policy_sha256: h.access_policy_sha256,
                        access_policy_node_id: h.access_policy_node_id,
                    },
                ),
                _ => None,
            }
        } else if f.number == 3 {
            match f.body {
                FieldBody::Span(a, b) => Some(
                    BlobHeaderView {
                        blob_id: h.blob_id,
                        public_key_id: h.public_key_id,
                        access_policy_sha256: s.subrange(a as int, b as int),
                        access_policy_node_id: h.access_policy_node_id,
                    },
                ),
                _ => None,
            }
        } else if f.number == 4 {
            match f.body {
                FieldBody::Varint(v) => Some(
                    BlobHeaderView {
                        blob_id: h.blob_id,
                        public_key_id: h.public_key_id,
                        access_policy_sha256: h.access_policy_sha256,
                        access_policy_node_id: v as u32,
                    },
                ),
                _ => None,
            }
        } else {
            Some(h)
        }
}

/// The blob header that the bytes `s` hold, if they hold one.
pub open spec fn blob_header_of(s: Seq<u8>) -> Option<BlobHeaderView> {
    fold_fields(s, 0, empty_header(), header_step(s))
}

/// The bytes of a blob header; empty and zero fields are left out.
pub open spec fn blob_header_bytes(h: BlobHeaderView) -> Seq<u8> {
    bytes_field(1, h.blob_id) + scalar_field(2, h.public_key_id as u64) + bytes_field(
        3,
        h.access_policy_sha256,
    ) + scalar_field(4, h.access_policy_node_id as u64)
}

/// A length-delimited field record.
pub open spec fn span_record(number: u32, a: usize, e: usize) -> Field {
    Field { number, body: FieldBody::Span(a, e), next: e }
}

/// A varint field record.
pub open spec fn varint_record(number: u32, v: u64, e: usize) -> Field {
    Field { number, body: FieldBody::Varint(v), next: e }
}

/// Reading a message that starts at `p` past an omitted-or-present bytes field
/// `number` holding `b`: the field is read back, or, when `b` is empty, skipped.
proof fn lemma_bytes_field_read<T>(
    s: Seq<u8>,
    p: int,
    number: u32,
    b: Seq<u8>,
    acc: T,
    set: T,
    step: spec_fn(T, Field) -> Option<T>,
)
    requires
        1 <= number < 0x2000_0000,
        0 <= p,
        p + bytes_field(number, b).len() <= s.len(),
        s.len() <= usize::MAX,
        s.subrange(p, p + bytes_field(number, b).len()) == bytes_field(number, b),
        b.len() == 0 ==> acc == set,
        forall|a: usize, e: usize|
            s.subrange(a as int, e as int) == b ==> step(acc, #[trigger] span_record(number, a, e))
                == Some(set),
    ensures
        fold_fields(s, p, acc, step) == fold_fields(s, p + bytes_field(number, b).len(), set, step),
{
    if b.len() != 0 {
        lemma_len_field_at(s, p, number, b);
        let e = (p + len_field(number, b).len()) as usize;
        let a = (p + len_field(number, b).len() - b.len()) as usize;
        assert(step(acc, span_record(number, a, e)) == Some(set));
    }
}

/// The same for a varint field that is omitted when it holds zero.
proof fn lemma_scalar_field_read<T>(
    s: Seq<u8>,
    p: int,
    number: u32,
    v: u64,
    acc: T,
    set: T,
    step: spec_fn(T, Field) -> Option<T>,
)
    requires
        1 <= number < 0x2000_0000,
        0 <= p,
        p + scalar_field(number, v).len() <= s.len(),
        s.len() <= usize::MAX,
        s.subrange(p, p + scalar_field(number, v).len()) == scalar_field(number, v),
        v == 0 ==> acc == set,
        forall|e: usize| step(acc, #[trigger] varint_record(number, v, e)) == Some(set),
    ensures
        fold_fields(s, p, acc, step) == fold_fields(s, p + scalar_field(number, v).len(), set, step),
{
    if v != 0 {
        lemma_varint_field_at(s, p, number, v);
        let e = (p + varint_field(number, v).len()) as usize;
        assert(step(acc, varint_record(number, v, e)) == Some(set));
    }
}

/// Reading back the bytes of a blob header gives the header.
pub proof fn law_blob_header_round_trip(h: BlobHeaderView)
    requires
        blob_header_bytes(h).len() <= usize::MAX,
    ensures
        blob_header_of(blob_header_bytes(h)) == Some(h),
{
    let f1 = bytes_field(1, h.blob_id);
    let f2 = scalar_field(2, h.public_key_id as u64);
    let f3 = bytes_field(3, h.access_policy_sha256);
    let f4 = scalar_field(4, h.access_policy_node_id as u64);
    let s = blob_header_bytes(h);
    assert(s == f1 + f2 + f3 + f4);
    let end1 = f1.len() as int;
    let end2 = end1 + f2.len();
    let end3 = end2 + f3.len();
    let end4 = end3 + f4.len();
    assert(s.subrange(0, end1) =~= f1);
    assert(s.subrange(end1, end2) =~= f2);
    assert(s.subrange(end2, end3) =~= f3);
    assert(s.subrange(end3, end4) =~= f4);
    let step = header_step(s);
    let a0 = empty_header();
    let a1 = BlobHeaderView { blob_id: h.blob_id, ..a0 };
    let a2 = BlobHeaderView { public_key_id: h.public_key_id, ..a1 };
    let a3 = BlobHeaderView { access_policy_sha256: h.access_policy_sha256, ..a2 };
    assert(h.blob_id.len() == 0 ==> h.blob_id =~= Seq::<u8>::empty());
    assert(h.access_policy_sha256.len() == 0 ==> h.access_policy_sha256 =~= Seq::<u8>::empty());
    lemma_bytes_field_read(s, 0, 1, h.blob_id, a0, a1, step);
    lemma_scalar_field_read(s, end1, 2, h.public_key_id as u64, a1, a2, step);
    lemma_bytes_field_read(s, end2, 3, h.access_policy_sha256, a2, a3, step);
    lemma_scalar_field_read(s, end3, 4, h.access_policy_node_id as u64, a3, h, step);
}

impl BlobHeader {
    /// Reads a blob header from bytes.
    pub fn decode(s: &[u8]) -> (r: Option<BlobHeader>)
        ensures
            match blob_header_of(s@) {
                None => r is None,
                Some(h) => r matches Some(x) && x@ == h,
            },
    {
        let mut h = BlobHeader {
            blob_id: Vec::new(),
            public_key_id: 0,
            access_policy_sha256: Vec::new(),
            access_policy_node_id: 0,
        };
        let mut p: usize = 0;
        assert(h@ == empty_header());
        while p < s.len()
            invariant
                s@.len() == s.len(),
                p <= s.len(),
                blob_header_of(s@) == fold_fields(s@, p as int, h@, header_step(s@)),
            decreases s.len() - p,
        {
            let f = match read_field(s, p) {
                None => return None,
                Some(f) => f,
            };
            proof {
                lemma_field_bounds(s@, p as int);
            }
            if f.number == 1 {
                match f.body {
                    FieldBody::Span(a, b) => {
                        h.blob_id = span_bytes(s, a, b);
                    },
                    _ => return None,
                }
            } else if f.number == 2 {
                match f.body {
                    FieldBody::Varint(v) => {
                        h.public_key_id = v as u32;
                    },
                    _ => return None,
                }
            } else if f.number == 3 {
                match f.body {
                    FieldBody::Span(a, b) => {
                        h.access_policy_sha256 = span_bytes(s, a, b);
                    },
                    _ => return None,
                }
            } else if f.number == 4 {
                match f.body {
                    FieldBody::Varint(v) => {
                        h.access_policy_node_id = v as u32;
                    },
                    _ => return None,
                }
            }
            p = f.next;
        }
        Some(h)
    }

    /// Writes this header as bytes.
    pub fn encode_to_vec(&self) -> (r: Vec<u8>)
        ensures
            r@ == blob_header_bytes(self@),
    {
        let mut out: Vec<u8> = Vec::new();
        write_bytes_field(&mut out, 1, self.blob_id.as_slice());
        write_scalar_field(&mut out, 2, self.public_key_id as u64);
        write_bytes_field(&mut out, 3, self.access_policy_sha256.as_slice());
        write_scalar_field(&mut out, 4, self.access_policy_node_id as u64);
        assert(out@ =~= blob_header_bytes(self@));
        out
    }
}

// --------------------------------------------------------------- access policy

/// Which applications a transform admits: with a tag, those whose tag equals it.
#[derive(Clone, Debug)]
pub struct ApplicationMatcher {
    pub tag: Option<String>,
}

pub struct ApplicationMatcherView {
    pub tag: Option<Seq<char>>,
}

impl View for ApplicationMatcher {
    type V = ApplicationMatcherView;

    open spec fn view(&self) -> ApplicationMatcherView {
        ApplicationMatcherView {
            tag: match self.tag {
                None => None,
                Some(t) => Some(t@),
            },
        }
    }
}

/// How often a transform may be used on one blob.
#[derive(Clone, Copy, Debug, PartialEq, Eq, Structural)]
pub enum AccessBudgetKind {
    Times(u32),
}

/// A transform's access budget; without a kind it sets no limit.
#[derive(Clone, Copy, Debug, PartialEq, Eq, Structural)]
pub struct AccessBudget {
    pub kind: Option<AccessBudgetKind>,
}

/// One entry of an access policy: which applications it admits and how often.
#[derive(Clone, Debug)]
pub struct Transform {
    pub application: Option<ApplicationMatcher>,
    pub access_budget: Option<AccessBudget>,
}

pub struct TransformView {
    pub application: Option<ApplicationMatcherView>,
    pub access_budget: Option<AccessBudget>,
}

impl View for Transform {
    type V = TransformView;

    open spec fn view(&self) -> TransformView {
        TransformView {
            application: match self.application {
                None => None,
                Some(m) => Some(m@),
            },
            access_budget: self.access_budget,
        }
    }
}

/// The transforms under which a blob may be used, in order.
#[derive(Clone, Debug)]
pub struct DataAccessPolicy {
    pub transforms: Vec<Transform>,
}

pub struct DataAccessPolicyView {
    pub transforms: Seq<TransformView>,
}

impl View for DataAccessPolicy {
    type V = DataAccessPolicyView;

    open spec fn view(&self) -> DataAccessPolicyView {
        DataAccessPolicyView { transforms: self.transforms@.map_values(|t: Transform| t@) }
    }
}

/// Folds one field of a matcher in `s`: 1 tag, which must be valid UTF-8.
pub open spec fn matcher_step(s: Seq<u8>) -> spec_fn(ApplicationMatcherView, Field) -> Option<
    ApplicationMatcherView,
> {
    |m: ApplicationMatcherView, f: Field|
        if f.number == 1 {
            match f.body {
                FieldBody::Span(a, b) => if valid_utf8(s.subrange(a as int, b as int)) {
                    Some(
                        ApplicationMatcherView {
                            tag: Some(decode_utf8(s.subrange(a as int, b as int))),
                        },
                    )
                } else {
                    None
                },
                _ => None,
            }
        } else {
            Some(m)
        }
}

/// The matcher that the bytes `s` hold, read on top of `m`: a later occurrence
/// of a matcher field merges into the earlier one.
pub open spec fn matcher_onto(s: Seq<u8>, m: ApplicationMatcherView) -> Option<
    ApplicationMatcherView,
> {
    fold_fields(s, 0, m, matcher_step(s))
}

pub open spec fn matcher_of(s: Seq<u8>) -> Option<ApplicationMatcherView> {
    matcher_onto(s, ApplicationMatcherView { tag: None })
}

/// Folds one field of an access budget: 1 the number of times.
pub open spec fn budget_step() -> spec_fn(AccessBudget, Field) -> Option<AccessBudget> {
    |b: AccessBudget, f: Field|
        if f.number == 1 {
            match f.body {
                FieldBody::Varint(v) => Some(AccessBudget { kind: Some(AccessBudgetKind::Times(v as u32)) }),
                _ => None,
            }
        } else {
            Some(b)
        }
}

/// The access budget that the bytes `s` hold, read on top of `g`.
pub open spec fn budget_onto(s: Seq<u8>, g: AccessBudget) -> Option<AccessBudget> {
    fold_fields(s, 0, g, budget_step())
}

pub open spec fn budget_of(s: Seq<u8>) -> Option<AccessBudget> {
    budget_onto(s, AccessBudget { kind: None })
}

/// Folds one field of a transform in `s`: 2 matcher, 3 access budget; a repeated
/// one merges into the earlier one.
pub open spec fn transform_step(s: Seq<u8>) -> spec_fn(TransformView, Field) -> Option<
    TransformView,
> {
    |t: TransformView, f: Field|
        if f.number == 2 {
            match f.body {
                FieldBody::Span(a, b) => match matcher_onto(
                    s.subrange(a as int, b as int),
                    match t.application {
                        None => ApplicationMatcherView { tag: None },
                        Some(m) => m,
                    },
                ) {
                    None => None,
                    Some(m) => Some(
                        TransformView { application: Some(m), access_budget: t.access_budget },
                    ),
                },
                _ => None,
            }
        } else if f.number == 3 {
            match f.body {
                FieldBody::Span(a, b) => match budget_onto(
                    s.subrange(a as int, b as int),
                    match t.access_budget {
                        None => AccessBudget { kind: None },
                        Some(g) => g,
                    },
                ) {
                    None => None,
                    Some(g) => Some(TransformView { application: t.application, access_budget: Some(g) }),
                },
                _ => None,
            }
        } else {
            Some(t)
        }
}

pub open spec fn transform_of(s: Seq<u8>) -> Option<TransformView> {
    fold_fields(s, 0, TransformView { application: None, access_budget: None }, transform_step(s))
}

/// Folds one field of a policy in `s`: each field 1 appends a transform.
pub open spec fn policy_step(s: Seq<u8>) -> spec_fn(DataAccessPolicyView, Field) -> Option<
    DataAccessPolicyView,
> {
    |p: DataAccessPolicyView, f: Field|
        if f.number == 1 {
            match f.body {
                FieldBody::Span(a, b) => match transform_of(s.subrange(a as int, b as int)) {
                    None => None,
                    Some(t) => Some(DataAccessPolicyView { transforms: p.transforms.push(t) }),
                },
                _ => None,
            }
        } else {
            Some(p)
        }
}

/// The access policy that the bytes `s` hold, if they hold one.
pub open spec fn access_policy_of(s: Seq<u8>) -> Option<DataAccessPolicyView> {
    fold_fields(s, 0, DataAccessPolicyView { transforms: Seq::empty() }, policy_step(s))
}

pub open spec fn matcher_bytes(m: ApplicationMatcherView) -> Seq<u8> {
    match m.tag {
        None => Seq::empty(),
        Some(t) => len_field(1, encode_utf8(t)),
    }
}

pub open spec fn budget_bytes(b: AccessBudget) -> Seq<u8> {
    match b.kind {
        None => Seq::empty(),
        Some(AccessBudgetKind::Times(n)) => varint_field(1, n as u64),
    }
}

pub open spec fn transform_bytes(t: TransformView) -> Seq<u8> {
    (match t.application {
        None => Seq::empty(),
        Some(m) => len_field(2, matcher_bytes(m)),
    }) + (match t.access_budget {
        None => Seq::empty(),
        Some(b) => len_field(3, budget_bytes(b)),
    })
}

pub open spec fn transforms_bytes(ts: Seq<TransformView>) -> Seq<u8>
    decreases ts.len(),
{
    if ts.len() == 0 {
        Seq::empty()
    } else {
        transforms_bytes(ts.drop_last()) + len_field(1, transform_bytes(ts.last()))
    }
}

/// The bytes of an access policy: one field 1 per transform, in order.
pub open spec fn access_policy_bytes(p: DataAccessPolicyView) -> Seq<u8> {
    transforms_bytes(p.transforms)
}

/// Reading back the bytes of a matcher gives the matcher.
pub proof fn law_matcher_round_trip(m: ApplicationMatcherView)
    requires
        matcher_bytes(m).len() <= usize::MAX,
    ensures
        matcher_of(matcher_bytes(m)) == Some(m),
{
    if let Some(tag) = m.tag {
        let b = encode_utf8(tag);
        let s = matcher_bytes(m);
        vstd::utf8::encode_utf8_valid_utf8(tag);
        vstd::utf8::encode_utf8_decode_utf8(tag);
        assert(s.subrange(0, s.len() as int) =~= s);
        lemma_message_field_read(s, 0, 1, b, ApplicationMatcherView { tag: None }, m, matcher_step(s));
    }
}

/// Reading back the bytes of an access budget gives the budget.
pub proof fn law_budget_round_trip(g: AccessBudget)
    ensures
        budget_of(budget_bytes(g)) == Some(g),
{
    if let Some(AccessBudgetKind::Times(n)) = g.kind {
        let s = budget_bytes(g);
        lemma_varint_bytes_len_u64(8);
        lemma_varint_bytes_len_u64(n as u64);
        assert(s.subrange(0, s.len() as int) =~= s);
        lemma_varint_field_at(s, 0, 1, n as u64);
        let f = varint_record(1, n as u64, s.len() as usize);
        assert(field_at(s, 0) == Some(f));
        assert((n as u64) as u32 == n);
        assert(budget_step()(AccessBudget { kind: None }, f) == Some(g));
        assert(fold_fields(s, s.len() as int, g, budget_step()) == Some(g));
    }
}

/// Reading back the bytes of a transform gives the transform.
pub proof fn law_transform_round_trip(t: TransformView)
    requires
        transform_bytes(t).len() <= usize::MAX,
    ensures
        transform_of(transform_bytes(t)) == Some(t),
{
    let f1 = match t.application {
        None => Seq::empty(),
        Some(m) => len_field(2, matcher_bytes(m)),
    };
    let f2 = match t.access_budget {
        None => Seq::empty(),
        Some(g) => len_field(3, budget_bytes(g)),
    };
    let s = transform_bytes(t);
    assert(s == f1 + f2);
    let end1 = f1.len() as int;
    let end2 = end1 + f2.len();
    assert(s.subrange(0, end1) =~= f1);
    assert(s.subrange(end1, end2) =~= f2);
    let step = transform_step(s);
    let a0 = TransformView { application: None, access_budget: None };
    let a1 = TransformView { application: t.application, access_budget: None };
    if let Some(m) = t.application {
        law_matcher_round_trip(m);
        lemma_message_field_read(s, 0, 2, matcher_bytes(m), a0, a1, step);
    }
    if let Some(g) = t.access_budget {
        law_budget_round_trip(g);
        lemma_message_field_read(s, end1, 3, budget_bytes(g), a1, t, step);
    }
}

proof fn lemma_transforms_prefix(ts: Seq<TransformView>, j: int)
    requires
        0 <= j <= ts.len(),
    ensures
        transforms_bytes(ts.take(j)).len() <= transforms_bytes(ts).len(),
        transforms_bytes(ts).subrange(0, transforms_bytes(ts.take(j)).len() as int)
            == transforms_bytes(ts.take(j)),
    decreases ts.len(),
{
    let all = transforms_bytes(ts);
    if j == ts.len() {
        assert(ts.take(j) =~= ts);
        assert(all.subrange(0, all.len() as int) =~= all);
    } else {
        let front = ts.drop_last();
        lemma_transforms_prefix(front, j);
        assert(front.take(j) =~= ts.take(j));
        let fb = transforms_bytes(front);
        assert(all == fb + len_field(1, transform_bytes(ts.last())));
        assert(all.subrange(0, transforms_bytes(ts.take(j)).len() as int) =~= fb.subrange(
            0,
            transforms_bytes(ts.take(j)).len() as int,
        ));
    }
}

proof fn lemma_transforms_read(ts: Seq<TransformView>, j: int)
    requires
        0 <= j <= ts.len(),
        transforms_bytes(ts).len() <= usize::MAX,
    ensures
        fold_fields(
            transforms_bytes(ts),
            transforms_bytes(ts.take(j)).len() as int,
            DataAccessPolicyView { transforms: ts.take(j) },
            policy_step(transforms_bytes(ts)),
        ) == Some(DataAccessPolicyView { transforms: ts }),
    decreases ts.len() - j,
{
    let s = transforms_bytes(ts);
    let step = policy_step(s);
    lemma_transforms_prefix(ts, j);
    if j == ts.len() {
        assert(ts.take(j) =~= ts);
    } else {
        lemma_transforms_prefix(ts, j + 1);
        lemma_transforms_read(ts, j + 1);
        let before = transforms_bytes(ts.take(j));
        let after = transforms_bytes(ts.take(j + 1));
        let tb = transform_bytes(ts[j]);
        assert(ts.take(j + 1).drop_last() =~= ts.take(j));
        assert(after == before + len_field(1, tb));
        let p = before.len() as int;
        let q = after.len() as int;
        assert(s.subrange(p, q) =~= after.subrange(p, q));
        assert(after.subrange(p, q) =~= len_field(1, tb));
        law_transform_round_trip(ts[j]);
        assert(ts.take(j).push(ts[j]) =~= ts.take(j + 1));
        lemma_message_field_read(
            s,
            p,
            1,
            tb,
            DataAccessPolicyView { transforms: ts.take(j) },
            DataAccessPolicyView { transforms: ts.take(j + 1) },
            step,
        );
    }
}

/// Reading back the bytes of an access policy gives the policy.
pub proof fn law_access_policy_round_trip(p: DataAccessPolicyView)
    requires
        access_policy_bytes(p).len() <= usize::MAX,
    ensures
        access_policy_of(access_policy_bytes(p)) == Some(p),
{
    lemma_transforms_read(p.transforms, 0);
    assert(p.transforms.take(0) =~= Seq::<TransformView>::empty());
    assert(transforms_bytes(p.transforms.take(0)).len() == 0);
}

impl ApplicationMatcher {
    pub fn decode(s: &[u8]) -> (r: Option<ApplicationMatcher>)
        ensures
            match matcher_of(s@) {
                None => r is None,
                Some(m) => r matches Some(x) && x@ == m,
            },
    {
        ApplicationMatcher::decode_onto(s, ApplicationMatcher { tag: None })
    }

    /// Reads a matcher from bytes on top of `start`.
    pub fn decode_onto(s: &[u8], start: ApplicationMatcher) -> (r: Option<ApplicationMatcher>)
        ensures
            match matcher_onto(s@, start@) {
                None => r is None,
                Some(m) => r matches Some(x) && x@ == m,
            },
    {
        let ghost m0 = start@;
        let mut m = start;
        assert(m@ == m0);
        let mut p: usize = 0;
        while p < s.len()
            invariant
                s@.len() == s.len(),
                p <= s.len(),
                m0 == start@,
                matcher_onto(s@, m0) == fold_fields(s@, p as int, m@, matcher_step(s@)),
            decreases s.len() - p,
        {
            let f = match read_field(s, p) {
                None => return None,
                Some(f) => f,
            };
            proof {
                lemma_field_bounds(s@, p as int);
            }
            if f.number == 1 {
                match f.body {
                    FieldBody::Span(a, b) => match string_from_utf8(span_bytes(s, a, b)) {
                        None => return None,
                        Some(tag) => {
                            m.tag = Some(tag);
                        },
                    },
                    _ => return None,
                }
            }
            p = f.next;
        }
        Some(m)
    }

    pub fn encode_to_vec(&self) -> (r: Vec<u8>)
        ensures
            r@ == matcher_bytes(self@),
    {
        let mut out: Vec<u8> = Vec::new();
        match &self.tag {
            None => {},
            Some(t) => {
                write_len_field(&mut out, 1, t.as_str().as_bytes());
            },
        }
        assert(out@ =~= matcher_bytes(self@));
        out
    }
}

impl AccessBudget {
    pub fn decode(s: &[u8]) -> (r: Option<AccessBudget>)
        ensures
            r == budget_of(s@),
    {
        AccessBudget::decode_onto(s, AccessBudget { kind: None })
    }

    /// Reads an access budget from bytes on top of `start`.
    pub fn decode_onto(s: &[u8], start: AccessBudget) -> (r: Option<AccessBudget>)
        ensures
            r == budget_onto(s@, start),
    {
        let mut g = start;
        let mut p: usize = 0;
        while p < s.len()
            invariant
                s@.len() == s.len(),
                p <= s.len(),
                budget_onto(s@, start) == fold_fields(s@, p as int, g, budget_step()),
            decreases s.len() - p,
        {
            let f = match read_field(s, p) {
                None => return None,
                Some(f) => f,
            };
            proof {
                lemma_field_bounds(s@, p as int);
            }
            if f.number == 1 {
                match f.body {
                    FieldBody::Varint(v) => {
                        g = AccessBudget { kind: Some(AccessBudgetKind::Times(v as u32)) };
                    },
                    _ => return None,
                }
            }
            p = f.next;
        }
        Some(g)
    }

    pub fn encode_to_vec(&self) -> (r: Vec<u8>)
        ensures
            r@ == budget_bytes(*self),
    {
        let mut out: Vec<u8> = Vec::new();
        match self.kind {
            None => {},
            Some(AccessBudgetKind::Times(n)) => {
                write_varint_field(&mut out, 1, n as u64);
            },
        }
        assert(out@ =~= budget_bytes(*self));
        out
    }
}

impl Transform {
    pub fn decode(s: &[u8]) -> (r: Option<Transform>)
        ensures
            match transform_of(s@) {
                None => r is None,
                Some(t) => r matches Some(x) && x@ == t,
            },
    {
        let mut t = Transform { application: None, access_budget: None };
        let mut p: usize = 0;
        while p < s.len()
            invariant
                s@.len() == s.len(),
                p <= s.len(),
                transform_of(s@) == fold_fields(s@, p as int, t@, transform_step(s@)),
            decreases s.len() - p,
        {
            let f = match read_field(s, p) {
                None => return None,
                Some(f) => f,
            };
            proof {
                lemma_field_bounds(s@, p as int);
            }
            if f.number == 2 {
                match f.body {
                    FieldBody::Span(a, b) => {
                        let start = match t.application {
                            None => ApplicationMatcher { tag: None },
                            Some(m) => m,
                        };
                        match ApplicationMatcher::decode_onto(
                            vstd::slice::slice_subrange(s, a, b),
                            start,
                        ) {
                            None => return None,
                            Some(m) => {
                                t.application = Some(m);
                            },
                        }
                    },
                    _ => return None,
                }
            } else if f.number == 3 {
                match f.body {
                    FieldBody::Span(a, b) => {
                        let start = match t.access_budget {
                            None => AccessBudget { kind: None },
                            Some(g) => g,
                        };
                        match AccessBudget::decode_onto(vstd::slice::slice_subrange(s, a, b), start) {
                            None => return None,
                            Some(g) => {
                                t.access_budget = Some(g);
                            },
                        }
                    },
                    _ => return None,
                }
            }
            p = f.next;
        }
        Some(t)
    }

    pub fn encode_to_vec(&self) -> (r: Vec<u8>)
        ensures
            r@ == transform_bytes(self@),
    {
        let mut out: Vec<u8> = Vec::new();
        match &self.application {
            None => {},
            Some(m) => {
                let b = m.encode_to_vec();
                write_len_field(&mut out, 2, b.as_slice());
            },
        }
        match &self.access_budget {
            None => {},
            Some(g) => {
                let b = g.encode_to_vec();
                write_len_field(&mut out, 3, b.as_slice());
            },
        }
        assert(out@ =~= transform_bytes(self@));
        out
    }
}

impl DataAccessPolicy {
    /// Reads an access policy from bytes.
    pub fn decode(s: &[u8]) -> (r: Option<DataAccessPolicy>)
        ensures
            match access_policy_of(s@) {
                None => r is None,
                Some(q) => r matches Some(x) && x@ == q,
            },
    {
        let mut q = DataAccessPolicy { transforms: Vec::new() };
        let mut p: usize = 0;
        assert(q@.transforms =~= Seq::<TransformView>::empty());
        while p < s.len()
            invariant
                s@.len() == s.len(),
                p <= s.len(),
                access_policy_of(s@) == fold_fields(s@, p as int, q@, policy_step(s@)),
            decreases s.len() - p,
        {
            let f = match read_field(s, p) {
                None => return None,
                Some(f) => f,
            };
            proof {
                lemma_field_bounds(s@, p as int);
            }
            if f.number == 1 {
                match f.body {
                    FieldBody::Span(a, b) => match Transform::decode(
                        vstd::slice::slice_subrange(s, a, b),
                    ) {
                        None => return None,
                        Some(t) => {
                            let ghost before = q@;
                            q.transforms.push(t);
                            assert(q@.transforms =~= before.transforms.push(t@));
                        },
                    },
                    _ => return None,
                }
            }
            p = f.next;
        }
        Some(q)
    }

    /// Writes this policy as bytes.
    pub fn encode_to_vec(&self) -> (r: Vec<u8>)
        ensures
            r@ == access_policy_bytes(self@),
    {
        let mut out: Vec<u8> = Vec::new();
        let mut i: usize = 0;
        while i < self.transforms.len()
            invariant
                i <= self.transforms@.len(),
                out@ == transforms_bytes(self@.transforms.take(i as int)),
            decreases self.transforms.len() - i,
        {
            let b = self.transforms[i].encode_to_vec();
            write_len_field(&mut out, 1, b.as_slice());
            proof {
                let ts = self@.transforms.take(i + 1);
                assert(ts.drop_last() =~= self@.transforms.take(i as int));
                assert(ts.last() == self.transforms@[i as int]@);
            }
            i = i + 1;
        }
        assert(self@.transforms.take(i as int) =~= self@.transforms);
        out
    }
}

// ------------------------------------------------------------ public key details

/// What the ledger says of a key it issued: its id, when it was issued, and when
/// it expires.
#[derive(Clone, Copy, Debug, PartialEq, Eq, Structural)]
pub struct PublicKeyDetails {
    pub public_key_id: u32,
    pub issued: Option<Timestamp>,
    pub expiration: Option<Timestamp>,
}

/// Folds one field of a timestamp: 1 seconds, 2 nanoseconds.
pub open spec fn timestamp_step() -> spec_fn(Timestamp, Field) -> Option<Timestamp> {
    |t: Timestamp, f: Field|
        if f.number == 1 {
            match f.body {
                FieldBody::Varint(v) => Some(Timestamp { seconds: v as i64, nanos: t.nanos }),
                _ => None,
            }
        } else if f.number == 2 {
            match f.body {
                FieldBody::Varint(v) => Some(Timestamp { seconds: t.seconds, nanos: v as i32 }),
                _ => None,
            }
        } else {
            Some(t)
        }
}

/// The timestamp that the bytes `s` hold, read on top of `t`.
pub open spec fn timestamp_onto(s: Seq<u8>, t: Timestamp) -> Option<Timestamp> {
    fold_fields(s, 0, t, timestamp_step())
}

pub open spec fn timestamp_of_bytes(s: Seq<u8>) -> Option<Timestamp> {
    timestamp_onto(s, Timestamp { seconds: 0, nanos: 0 })
}

pub open spec fn timestamp_or_zero(t: Option<Timestamp>) -> Timestamp {
    match t {
        None => Timestamp { seconds: 0, nanos: 0 },
        Some(x) => x,
    }
}

/// Folds one field of key details in `s`: 1 key id, 2 issued, 3 expiration; a
/// repeated timestamp merges into the earlier one.
pub open spec fn details_step(s: Seq<u8>) -> spec_fn(PublicKeyDetails, Field) -> Option<
    PublicKeyDetails,
> {
    |d: PublicKeyDetails, f: Field|
        if f.number == 1 {
            match f.body {
                FieldBody::Varint(v) => Some(
                    PublicKeyDetails {
                        public_key_id: v as u32,
                        issued: d.issued,
                        expiration: d.expiration,
                    },
                ),
                _ => None,
            }
        } else if f.number == 2 {
            match f.body {
                FieldBody::Span(a, b) => match timestamp_onto(
                    s.subrange(a as int, b as int),
                    timestamp_or_zero(d.issued),
                ) {
                    None => None,
                    Some(t) => Some(
                        PublicKeyDetails {
                            public_key_id: d.public_key_id,
                            issued: Some(t),
                            expiration: d.expiration,
                        },
                    ),
                },
                _ => None,
            }
        } else if f.number == 3 {
            match f.body {
                FieldBody::Span(a, b) => match timestamp_onto(
                    s.subrange(a as int, b as int),
                    timestamp_or_zero(d.expiration),
                ) {
                    None => None,
                    Some(t) => Some(
                        PublicKeyDetails {
                            public_key_id: d.public_key_id,
                            issued: d.issued,
                            expiration: Some(t),
                        },
                    ),
                },
                _ => None,
            }
        } else {
            Some(d)
        }
}

/// The key details that the bytes `s` hold, if they hold them.
pub open spec fn public_key_details_of(s: Seq<u8>) -> Option<PublicKeyDetails> {
    fold_fields(
        s,
        0,
        PublicKeyDetails { public_key_id: 0, issued: None, expiration: None },
        details_step(s),
    )
}

pub open spec fn timestamp_bytes(t: Timestamp) -> Seq<u8> {
    scalar_field(1, t.seconds as u64) + scalar_field(2, t.nanos as i64 as u64)
}

/// The bytes of key details; a zero id and absent timestamps are left out.
pub open spec fn public_key_details_bytes(d: PublicKeyDetails) -> Seq<u8> {
    scalar_field(1, d.public_key_id as u64) + (match d.issued {
        None => Seq::empty(),
        Some(t) => len_field(2, timestamp_bytes(t)),
    }) + (match d.expiration {
        None => Seq::empty(),
        Some(t) => len_field(3, timestamp_bytes(t)),
    })
}

/// A length-delimited field that is always written, read back at `p`.
proof fn lemma_message_field_read<T>(
    s: Seq<u8>,
    p: int,
    number: u32,
    b: Seq<u8>,
    acc: T,
    set: T,
    step: spec_fn(T, Field) -> Option<T>,
)
    requires
        1 <= number < 0x2000_0000,
        0 <= p,
        p + len_field(number, b).len() <= s.len(),
        s.len() <= usize::MAX,
        s.subrange(p, p + len_field(number, b).len()) == len_field(number, b),
        forall|a: usize, e: usize|
            s.subrange(a as int, e as int) == b ==> step(acc, #[trigger] span_record(number, a, e))
                == Some(set),
    ensures
        fold_fields(s, p, acc, step) == fold_fields(s, p + len_field(number, b).len(), set, step),
{
    lemma_len_field_at(s, p, number, b);
    let e = (p + len_field(number, b).len()) as usize;
    let a = (p + len_field(number, b).len() - b.len()) as usize;
    assert(step(acc, span_record(number, a, e)) == Some(set));
}

/// Reading back the bytes of a timestamp gives the timestamp.
pub proof fn law_timestamp_round_trip(t: Timestamp)
    ensures
        timestamp_of_bytes(timestamp_bytes(t)) == Some(t),
{
    let f1 = scalar_field(1, t.seconds as u64);
    let f2 = scalar_field(2, t.nanos as i64 as u64);
    let s = timestamp_bytes(t);
    lemma_varint_bytes_len_u64((1 * 8 + 0) as u64);
    lemma_varint_bytes_len_u64((2 * 8 + 0) as u64);
    lemma_varint_bytes_len_u64(t.seconds as u64);
    lemma_varint_bytes_len_u64(t.nanos as i64 as u64);
    let end1 = f1.len() as int;
    let end2 = end1 + f2.len();
    assert(s.subrange(0, end1) =~= f1);
    assert(s.subrange(end1, end2) =~= f2);
    let step = timestamp_step();
    let a0 = Timestamp { seconds: 0, nanos: 0 };
    let a1 = Timestamp { seconds: t.seconds, nanos: 0 };
    let sec = t.seconds;
    let nan = t.nanos;
    assert((sec as u64) as i64 == sec && (sec as u64 == 0 ==> sec == 0)) by (bit_vector);
    assert(((nan as i64) as u64) as i32 == nan && (nan as i64 as u64 == 0 ==> nan == 0))
        by (bit_vector);
    lemma_scalar_field_read(s, 0, 1, t.seconds as u64, a0, a1, step);
    lemma_scalar_field_read(s, end1, 2, t.nanos as i64 as u64, a1, t, step);
}

/// Reading back the bytes of key details gives the details.
pub proof fn law_public_key_details_round_trip(d: PublicKeyDetails)
    ensures
        public_key_details_of(public_key_details_bytes(d)) == Some(d),
{
    let f1 = scalar_field(1, d.public_key_id as u64);
    let f2 = match d.issued {
        None => Seq::empty(),
        Some(t) => len_field(2, timestamp_bytes(t)),
    };
    let f3 = match d.expiration {
        None => Seq::empty(),
        Some(t) => len_field(3, timestamp_bytes(t)),
    };
    let s = public_key_details_bytes(d);
    assert(s == f1 + f2 + f3);
    lemma_varint_bytes_len_u64(8);
    lemma_varint_bytes_len_u64(d.public_key_id as u64);
    lemma_timestamp_bytes_len(d.issued);
    lemma_timestamp_bytes_len(d.expiration);
    let end1 = f1.len() as int;
    let end2 = end1 + f2.len();
    let end3 = end2 + f3.len();
    assert(s.subrange(0, end1) =~= f1);
    assert(s.subrange(end1, end2) =~= f2);
    assert(s.subrange(end2, end3) =~= f3);
    let step = details_step(s);
    let a0 = PublicKeyDetails { public_key_id: 0, issued: None, expiration: None };
    let a1 = PublicKeyDetails { public_key_id: d.public_key_id, issued: None, expiration: None };
    let a2 = PublicKeyDetails { public_key_id: d.public_key_id, issued: d.issued, expiration: None };
    lemma_scalar_field_read(s, 0, 1, d.public_key_id as u64, a0, a1, step);
    if let Some(t) = d.issued {
        law_timestamp_round_trip(t);
        lemma_message_field_read(s, end1, 2, timestamp_bytes(t), a1, a2, step);
    }
    if let Some(t) = d.expiration {
        law_timestamp_round_trip(t);
        lemma_message_field_read(s, end2, 3, timestamp_bytes(t), a2, d, step);
    }
}

/// The bytes of a timestamp field are few.
proof fn lemma_timestamp_bytes_len(t: Option<Timestamp>)
    ensures
        t matches Some(x) ==> timestamp_bytes(x).len() <= 22,
{
    if let Some(x) = t {
        lemma_varint_bytes_len_u64(8);
        lemma_varint_bytes_len_u64(16);
        lemma_varint_bytes_len_u64(x.seconds as u64);
        lemma_varint_bytes_len_u64(x.nanos as i64 as u64);
    }
}

fn decode_timestamp(s: &[u8], start: Timestamp) -> (r: Option<Timestamp>)
    ensures
        r == timestamp_onto(s@, start),
{
    let mut t = start;
    let mut p: usize = 0;
    while p < s.len()
        invariant
            s@.len() == s.len(),
            p <= s.len(),
            timestamp_onto(s@, start) == fold_fields(s@, p as int, t, timestamp_step()),
        decreases s.len() - p,
    {
        let f = match read_field(s, p) {
            None => return None,
            Some(f) => f,
        };
        proof {
            lemma_field_bounds(s@, p as int);
        }
        if f.number == 1 {
            match f.body {
                FieldBody::Varint(v) => {
                    t = Timestamp { seconds: v as i64, nanos: t.nanos };
                },
                _ => return None,
            }
        } else if f.number == 2 {
            match f.body {
                FieldBody::Varint(v) => {
                    t = Timestamp { seconds: t.seconds, nanos: v as i32 };
                },
                _ => return None,
            }
        }
        p = f.next;
    }
    Some(t)
}

fn encode_timestamp(t: Timestamp) -> (r: Vec<u8>)
    ensures
        r@ == timestamp_bytes(t),
{
    let mut out: Vec<u8> = Vec::new();
    write_scalar_field(&mut out, 1, t.seconds as u64);
    write_scalar_field(&mut out, 2, t.nanos as i64 as u64);
    assert(out@ =~= timestamp_bytes(t));
    out
}

impl PublicKeyDetails {
    /// Reads key details from bytes.
    pub fn decode(s: &[u8]) -> (r: Option<PublicKeyDetails>)
        ensures
            r == public_key_details_of(s@),
    {
        let mut d = PublicKeyDetails { public_key_id: 0, issued: None, expiration: None };
        let mut p: usize = 0;
        while p < s.len()
            invariant
                s@.len() == s.len(),
                p <= s.len(),
                public_key_details_of(s@) == fold_fields(s@, p as int, d, details_step(s@)),
            decreases s.len() - p,
        {
            let f = match read_field(s, p) {
                None => return None,
                Some(f) => f,
            };
            proof {
                lemma_field_bounds(s@, p as int);
            }
            if f.number == 1 {
                match f.body {
                    FieldBody::Varint(v) => {
                        d.public_key_id = v as u32;
                    },
                    _ => return None,
                }
            } else if f.number == 2 || f.number == 3 {
                match f.body {
                    FieldBody::Span(a, b) => match decode_timestamp(
                        vstd::slice::slice_subrange(s, a, b),
                        match if f.number == 2 {
                            d.issued
                        } else {
                            d.expiration
                        } {
                            None => Timestamp { seconds: 0, nanos: 0 },
                            Some(x) => x,
                        },
                    ) {
                        None => return None,
                        Some(t) => {
                            if f.number == 2 {
                                d.issued = Some(t);
                            } else {
                                d.expiration = Some(t);
                            }
                        },
                    },
                    _ => return None,
                }
            }
            p = f.next;
        }
        Some(d)
    }

    /// Writes these details as bytes.
    pub fn encode_to_vec(&self) -> (r: Vec<u8>)
        ensures
            r@ == public_key_details_bytes(*self),
    {
        let mut out: Vec<u8> = Vec::new();
        write_scalar_field(&mut out, 1, self.public_key_id as u64);
        match self.issued {
            None => {},
            Some(t) => {
                let b = encode_timestamp(t);
                write_len_field(&mut out, 2, b.as_slice());
            },
        }
        match self.expiration {
            None => {},
            Some(t) => {
                let b = encode_timestamp(t);
                write_len_field(&mut out, 3, b.as_slice());
            },
        }
        assert(out@ =~= public_key_details_bytes(*self));
        out
    }
}

} // verus!
