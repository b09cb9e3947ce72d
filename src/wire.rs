//! The tag-length-value byte format of the ledger's messages: base-128 varints,
//! field keys that join a field number and a wire type, and length-delimited bodies.

use vstd::prelude::*;
use vstd::slice::slice_subrange;

verus! {

/// Wire type of a varint field.
pub const WIRE_VARINT: u64 = 0;

/// Wire type of an eight-byte field.
pub const WIRE_FIXED64: u64 = 1;

/// Wire type of a length-delimited field.
pub const WIRE_LEN: u64 = 2;

/// Wire type of a four-byte field.
pub const WIRE_FIXED32: u64 = 5;

/// Wire type that opens a group.
pub const WIRE_START_GROUP: u64 = 3;

/// Wire type that closes a group.
pub const WIRE_END_GROUP: u64 = 4;

/// How deeply groups may nest.
pub const GROUP_DEPTH_LIMIT: u64 = 100;

/// The varint that starts at `i`, given that `k` of its bytes came before `i`:
/// its value and the position just past it. A varint has at most ten bytes.
pub open spec fn varint_from(s: Seq<u8>, i: int, k: nat) -> Option<(nat, int)>
    decreases 10 - k,
{
    if k >= 10 || i < 0 || i >= s.len() {
        None
    } else if s[i] < 128 {
        Some((s[i] as nat, i + 1))
    } else {
        match varint_from(s, i + 1, k + 1) {
            None => None,
            Some((v, e)) => Some((((s[i] - 128) + 128 * v) as nat, e)),
        }
    }
}

/// The varint at `i`, when its value fits in 64 bits.
pub open spec fn varint_at(s: Seq<u8>, i: int) -> Option<(u64, int)> {
    match varint_from(s, i, 0) {
        Some((v, e)) => if v <= u64::MAX {
            Some((v as u64, e))
        } else {
            None
        },
        None => None,
    }
}

/// What follows a field's key.
#[derive(Clone, Copy, Debug, PartialEq, Eq, Structural)]
pub enum FieldBody {
    /// A varint value.
    Varint(u64),
    /// A length-delimited value: the bytes from `.0` up to `.1`.
    Span(usize, usize),
    /// A fixed-width value or a group, which no message here reads.
    Fixed,
}

/// One field of a message: its number, its body, and where the next field starts.
#[derive(Clone, Copy, Debug, PartialEq, Eq, Structural)]
pub struct Field {
    pub number: u32,
    pub body: FieldBody,
    pub next: usize,
}

/// Where the body of a field of wire type `wire` that starts at `q` ends, for the
/// wire types that are not groups.
pub open spec fn plain_body_end(s: Seq<u8>, q: int, wire: u64) -> Option<int> {
    if wire == WIRE_VARINT {
        match varint_at(s, q) {
            None => None,
            Some((_, e)) => Some(e),
        }
    } else if wire == WIRE_LEN {
        match varint_at(s, q) {
            None => None,
            Some((n, e)) => if e + n > s.len() {
                None
            } else {
                Some(e + n)
            },
        }
    } else if wire == WIRE_FIXED64 {
        if q + 8 > s.len() {
            None
        } else {
            Some(q + 8)
        }
    } else if wire == WIRE_FIXED32 {
        if q + 4 > s.len() {
            None
        } else {
            Some(q + 4)
        }
    } else {
        None
    }
}

/// Where a group of field `number` whose next key starts at `p` ends: just past
/// the key that closes it, with nested groups skipped whole. A close of another
/// field, or nesting deeper than `GROUP_DEPTH_LIMIT`, is refused.
pub open spec fn group_end(s: Seq<u8>, p: int, number: u64, depth: u64) -> Option<int>
    decreases s.len() - p,
{
    if depth >= GROUP_DEPTH_LIMIT || p < 0 || p >= s.len() {
        None
    } else {
        match varint_at(s, p) {
            None => None,
            Some((key, q)) => {
                if key > u32::MAX || key / 8 == 0 || q <= p || q > s.len() {
                    None
                } else if key % 8 == WIRE_END_GROUP {
                    if key / 8 == number {
                        Some(q)
                    } else {
                        None
                    }
                } else {
                    let after = if key % 8 == WIRE_START_GROUP {
                        group_end(s, q, key / 8, (depth + 1) as u64)
                    } else {
                        plain_body_end(s, q, key % 8)
                    };
                    match after {
                        None => None,
                        Some(e) => if e <= p || e > s.len() {
                            None
                        } else {
                            group_end(s, e, number, depth)
                        },
                    }
                }
            },
        }
    }
}

/// The field whose key starts at `p`. The key's varint must fit in 32 bits and
/// name a field number of at least one; a group is skipped whole; wire types 4,
/// 6 and 7 are refused.
pub open spec fn field_at(s: Seq<u8>, p: int) -> Option<Field> {
    match varint_at(s, p) {
        None => None,
        Some((key, q)) => {
            let number = key / 8;
            let wire = key % 8;
            if key > u32::MAX || number == 0 {
                None
            } else if wire == WIRE_VARINT {
                match varint_at(s, q) {
                    None => None,
                    Some((v, e)) => Some(
                        Field { number: number as u32, body: FieldBody::Varint(v), next: e as usize },
                    ),
                }
            } else if wire == WIRE_LEN {
                match varint_at(s, q) {
                    None => None,
                    Some((n, e)) => if e + n > s.len() {
                        None
                    } else {
                        Some(
                            Field {
                                number: number as u32,
                                body: FieldBody::Span(e as usize, (e + n) as usize),
                                next: (e + n) as usize,
                            },
                        )
                    },
                }
            } else if wire == WIRE_FIXED64 {
                if q + 8 > s.len() {
                    None
                } else {
                    Some(Field { number: number as u32, body: FieldBody::Fixed, next: (q + 8) as usize })
                }
            } else if wire == WIRE_FIXED32 {
                if q + 4 > s.len() {
                    None
                } else {
                    Some(Field { number: number as u32, body: FieldBody::Fixed, next: (q + 4) as usize })
                }
            } else if wire == WIRE_START_GROUP {
                match group_end(s, q, number, 0) {
                    None => None,
                    Some(e) => Some(Field { number: number as u32, body: FieldBody::Fixed, next: e as usize }),
                }
            } else {
                None
            }
        },
    }
}

/// A group ends past where it starts and no further than the input.
proof fn lemma_group_end_bounds(s: Seq<u8>, p: int, number: u64, depth: u64)
    ensures
        group_end(s, p, number, depth) matches Some(e) ==> p < e <= s.len(),
    decreases s.len() - p,
{
    if depth < GROUP_DEPTH_LIMIT && 0 <= p < s.len() {
        if let Some((key, q)) = varint_at(s, p) {
            lemma_varint_from_bounds(s, p, 0);
            if !(key > u32::MAX || key / 8 == 0 || q <= p || q > s.len()) && key % 8 != WIRE_END_GROUP {
                let after = if key % 8 == WIRE_START_GROUP {
                    group_end(s, q, key / 8, (depth + 1) as u64)
                } else {
                    plain_body_end(s, q, key % 8)
                };
                if let Some(e) = after {
                    if !(e <= p || e > s.len()) {
                        lemma_group_end_bounds(s, e, number, depth);
                    }
                }
            }
        }
    }
}

/// Finds where a group ends; see `group_end`.
fn skip_group(s: &[u8], p: usize, number: u64, depth: u64) -> (r: Option<usize>)
    ensures
        match group_end(s@, p as int, number, depth) {
            None => r is None,
            Some(e) => r == Some(e as usize),
        },
    decreases s@.len() - p,
{
    proof {
        assert(s@.len() == s.len());
        lemma_group_end_bounds(s@, p as int, number, depth);
    }
    if depth >= GROUP_DEPTH_LIMIT || p >= s.len() {
        return None;
    }
    let (key, q) = match read_varint(s, p) {
        None => return None,
        Some(kq) => kq,
    };
    proof {
        lemma_varint_from_bounds(s@, p as int, 0);
        lemma_varint_from_bounds(s@, q as int, 0);
    }
    if key > u32::MAX as u64 || key / 8 == 0 || q <= p || q > s.len() {
        return None;
    }
    if key % 8 == WIRE_END_GROUP {
        return if key / 8 == number {
            Some(q)
        } else {
            None
        };
    }
    let after = if key % 8 == WIRE_START_GROUP {
        skip_group(s, q, key / 8, depth + 1)
    } else {
        plain_body_skip(s, q, key % 8)
    };
    proof {
        lemma_group_end_bounds(s@, q as int, key / 8, (depth + 1) as u64);
    }
    match after {
        None => None,
        Some(e) => {
            if e <= p || e > s.len() {
                None
            } else {
                skip_group(s, e, number, depth)
            }
        },
    }
}

fn plain_body_skip(s: &[u8], q: usize, wire: u64) -> (r: Option<usize>)
    ensures
        match plain_body_end(s@, q as int, wire) {
            None => r is None,
            Some(e) => r == Some(e as usize),
        },
{
    proof {
        lemma_varint_from_bounds(s@, q as int, 0);
    }
    if wire == WIRE_VARINT {
        match read_varint(s, q) {
            None => None,
            Some((_, e)) => Some(e),
        }
    } else if wire == WIRE_LEN {
        match read_varint(s, q) {
            None => None,
            Some((n, e)) => {
                if n > (s.len() - e) as u64 {
                    None
                } else {
                    Some(e + n as usize)
                }
            },
        }
    } else if wire == WIRE_FIXED64 {
        if q > s.len() || s.len() - q < 8 {
            None
        } else {
            Some(q + 8)
        }
    } else if wire == WIRE_FIXED32 {
        if q > s.len() || s.len() - q < 4 {
            None
        } else {
            Some(q + 4)
        }
    } else {
        None
    }
}

/// A varint ends past its first byte and no further than the input.
proof fn lemma_varint_from_bounds(s: Seq<u8>, i: int, k: nat)
    ensures
        varint_from(s, i, k) matches Some((v, e)) ==> i < e <= s.len(),
    decreases 10 - k,
{
    if k < 10 && 0 <= i < s.len() && s[i] >= 128 {
        lemma_varint_from_bounds(s, i + 1, k + 1);
    }
}

/// A field ends past its start and no further than the input; a span lies inside it.
pub proof fn lemma_field_bounds(s: Seq<u8>, p: int)
    requires
        s.len() <= usize::MAX,
    ensures
        field_at(s, p) matches Some(f) ==> p < f.next <= s.len() && (f.body matches FieldBody::Span(
            a,
            b,
        ) ==> p < a <= b == f.next),
{
    lemma_varint_from_bounds(s, p, 0);
    if let Some((key, q)) = varint_at(s, p) {
        lemma_varint_from_bounds(s, q, 0);
        lemma_group_end_bounds(s, q, key / 8, 0);
    }
}

fn read_varint_from(s: &[u8], i: usize, k: usize) -> (r: Option<(u64, usize)>)
    requires
        k <= 10,
    ensures
        match varint_from(s@, i as int, k as nat) {
            Some((v, e)) => if v <= u64::MAX {
                r == Some((v as u64, e as usize))
            } else {
                r is None
            },
            None => r is None,
        },
    decreases 10 - k,
{
    proof {
        lemma_varint_from_bounds(s@, i as int, k as nat);
    }
    if k >= 10 || i >= s.len() {
        return None;
    }
    let b = s[i];
    if b < 128 {
        return Some((b as u64, i + 1));
    }
    let low = (b - 128) as u64;
    match read_varint_from(s, i + 1, k + 1) {
        None => None,
        Some((v, e)) => {
            if v > (u64::MAX - low) / 128 {
                None
            } else {
                proof {
                    assert(low + 128 * v <= u64::MAX) by (nonlinear_arith)
                        requires
                            v <= (u64::MAX - low) / 128,
                            low < 128,
                    ;
                }
                Some((low + 128 * v, e))
            }
        },
    }
}

/// Reads the varint at `i`.
pub fn read_varint(s: &[u8], i: usize) -> (r: Option<(u64, usize)>)
    ensures
        match varint_at(s@, i as int) {
            Some((v, e)) => r == Some((v, e as usize)),
            None => r is None,
        },
{
    read_varint_from(s, i, 0)
}

/// Reads the field whose key starts at `p`.
pub fn read_field(s: &[u8], p: usize) -> (r: Option<Field>)
    ensures
        r == field_at(s@, p as int),
{
    proof {
        assert(s@.len() == s.len());
        lemma_field_bounds(s@, p as int);
        lemma_varint_from_bounds(s@, p as int, 0);
    }
    let (key, q) = match read_varint(s, p) {
        None => return None,
        Some(kq) => kq,
    };
    proof {
        lemma_varint_from_bounds(s@, q as int, 0);
    }
    let number = key / 8;
    let wire = key % 8;
    if key > u32::MAX as u64 || number == 0 {
        return None;
    }
    if wire == WIRE_VARINT {
        match read_varint(s, q) {
            None => None,
            Some((v, e)) => Some(Field { number: number as u32, body: FieldBody::Varint(v), next: e }),
        }
    } else if wire == WIRE_LEN {
        match read_varint(s, q) {
            None => None,
            Some((n, e)) => {
                if n > (s.len() - e) as u64 {
                    None
                } else {
                    let end = e + n as usize;
                    Some(Field { number: number as u32, body: FieldBody::Span(e, end), next: end })
                }
            },
        }
    } else if wire == WIRE_FIXED64 {
        if s.len() - q < 8 {
            None
        } else {
            Some(Field { number: number as u32, body: FieldBody::Fixed, next: q + 8 })
        }
    } else if wire == WIRE_FIXED32 {
        if s.len() - q < 4 {
            None
        } else {
            Some(Field { number: number as u32, body: FieldBody::Fixed, next: q + 4 })
        }
    } else if wire == WIRE_START_GROUP {
        proof {
            lemma_group_end_bounds(s@, q as int, number, 0);
        }
        match skip_group(s, q, number, 0) {
            None => None,
            Some(e) => Some(Field { number: number as u32, body: FieldBody::Fixed, next: e }),
        }
    } else {
        None
    }
}

/// The varint bytes of `v`, low seven bits first.
pub open spec fn varint_bytes(v: nat) -> Seq<u8>
    decreases v,
{
    if v < 128 {
        seq![v as u8]
    } else {
        seq![(v % 128 + 128) as u8] + varint_bytes(v / 128)
    }
}

/// The key of field `number` with wire type `wire`.
pub open spec fn key_bytes(number: u32, wire: u64) -> Seq<u8> {
    varint_bytes((number * 8 + wire) as nat)
}

/// A varint field.
pub open spec fn varint_field(number: u32, v: u64) -> Seq<u8> {
    key_bytes(number, WIRE_VARINT) + varint_bytes(v as nat)
}

/// A length-delimited field.
pub open spec fn len_field(number: u32, b: Seq<u8>) -> Seq<u8> {
    key_bytes(number, WIRE_LEN) + varint_bytes(b.len()) + b
}

/// A varint field that is left out when it holds zero.
pub open spec fn scalar_field(number: u32, v: u64) -> Seq<u8> {
    if v == 0 {
        Seq::empty()
    } else {
        varint_field(number, v)
    }
}

/// A length-delimited field that is left out when it is empty.
pub open spec fn bytes_field(number: u32, b: Seq<u8>) -> Seq<u8> {
    if b.len() == 0 {
        Seq::empty()
    } else {
        len_field(number, b)
    }
}

/// Appends the varint bytes of `v`.
pub fn write_varint(out: &mut Vec<u8>, v: u64)
    ensures
        final(out)@ == old(out)@ + varint_bytes(v as nat),
{
    let ghost start = out@;
    let mut x: u64 = v;
    while x >= 128
        invariant
            out@ + varint_bytes(x as nat) == start + varint_bytes(v as nat),
        decreases x,
    {
        let ghost before = out@;
        let b = (x % 128 + 128) as u8;
        out.push(b);
        proof {
            assert(varint_bytes(x as nat) == seq![b] + varint_bytes((x / 128) as nat));
            assert(out@ + varint_bytes((x / 128) as nat) =~= before + varint_bytes(x as nat));
        }
        x = x / 128;
    }
    out.push(x as u8);
    proof {
        assert(varint_bytes(x as nat) == seq![x as u8]);
    }
}

fn write_key(out: &mut Vec<u8>, number: u32, wire: u64)
    requires
        wire < 8,
    ensures
        final(out)@ == old(out)@ + key_bytes(number, wire),
{
    write_varint(out, (number as u64) * 8 + wire);
}

/// Appends a varint field.
pub fn write_varint_field(out: &mut Vec<u8>, number: u32, v: u64)
    ensures
        final(out)@ == old(out)@ + varint_field(number, v),
{
    let ghost start = out@;
    write_key(out, number, WIRE_VARINT);
    write_varint(out, v);
    assert(out@ =~= start + varint_field(number, v));
}

/// Appends a length-delimited field.
pub fn write_len_field(out: &mut Vec<u8>, number: u32, b: &[u8])
    ensures
        final(out)@ == old(out)@ + len_field(number, b@),
{
    let ghost start = out@;
    write_key(out, number, WIRE_LEN);
    write_varint(out, b.len() as u64);
    out.extend_from_slice(b);
    assert(out@ =~= start + len_field(number, b@));
}

/// Appends a varint field unless it holds zero.
pub fn write_scalar_field(out: &mut Vec<u8>, number: u32, v: u64)
    ensures
        final(out)@ == old(out)@ + scalar_field(number, v),
{
    if v != 0 {
        write_varint_field(out, number, v);
    } else {
        assert(old(out)@ + scalar_field(number, v) =~= old(out)@);
    }
}

/// Appends a length-delimited field unless it is empty.
pub fn write_bytes_field(out: &mut Vec<u8>, number: u32, b: &[u8])
    ensures
        final(out)@ == old(out)@ + bytes_field(number, b@),
{
    if b.len() != 0 {
        write_len_field(out, number, b);
    } else {
        assert(old(out)@ + bytes_field(number, b@) =~= old(out)@);
    }
}

/// The message read field by field from `p` on, starting from `acc`, where
/// `step` folds one field into it or refuses it.
pub open spec fn fold_fields<T>(
    s: Seq<u8>,
    p: int,
    acc: T,
    step: spec_fn(T, Field) -> Option<T>,
) -> Option<T>
    decreases s.len() - p,
{
    if p < 0 || p >= s.len() {
        Some(acc)
    } else {
        match field_at(s, p) {
            None => None,
            Some(f) => if f.next <= p || f.next > s.len() {
                None
            } else {
                match step(acc, f) {
                    None => None,
                    Some(next) => fold_fields(s, f.next as int, next, step),
                }
            },
        }
    }
}

/// Copies the bytes of a span.
pub fn span_bytes(s: &[u8], a: usize, b: usize) -> (r: Vec<u8>)
    requires
        a <= b <= s@.len(),
    ensures
        r@ == s@.subrange(a as int, b as int),
{
    vstd::slice::slice_to_vec(slice_subrange(s, a, b))
}

/// 128 to the power `j`.
pub open spec fn pow128(j: nat) -> nat
    decreases j,
{
    if j == 0 {
        1
    } else {
        128 * pow128((j - 1) as nat)
    }
}

/// A value below 128 to the power `j` takes at most `j` varint bytes.
pub proof fn lemma_varint_bytes_len(v: nat, j: nat)
    requires
        j >= 1,
        v < pow128(j),
    ensures
        1 <= varint_bytes(v).len() <= j,
    decreases v,
{
    if v >= 128 {
        assert(v / 128 < pow128((j - 1) as nat)) by {
            assert(pow128(j) == 128 * pow128((j - 1) as nat));
        }
        if j == 1 {
            assert(pow128(1) == 128) by {
                assert(pow128(0) == 1);
            }
        } else {
            lemma_varint_bytes_len(v / 128, (j - 1) as nat);
        }
    }
}

/// A 64-bit value takes at most ten varint bytes.
pub proof fn lemma_varint_bytes_len_u64(v: u64)
    ensures
        1 <= varint_bytes(v as nat).len() <= 10,
{
    assert(pow128(0) == 1);
    assert(pow128(1) == 128);
    assert(pow128(2) == 16384);
    assert(pow128(3) == 2097152);
    assert(pow128(4) == 268435456);
    assert(pow128(5) == 34359738368);
    assert(pow128(6) == 4398046511104);
    assert(pow128(7) == 562949953421312);
    assert(pow128(8) == 72057594037927936);
    assert(pow128(9) == 9223372036854775808);
    assert(pow128(10) == 1180591620717411303424);
    lemma_varint_bytes_len(v as nat, 10);
}

/// The varint bytes of `v`, found at `i` after `k` other bytes of the same varint,
/// read back as `v`.
pub proof fn lemma_read_varint_bytes(s: Seq<u8>, i: int, v: nat, k: nat)
    requires
        0 <= i,
        i + varint_bytes(v).len() <= s.len(),
        s.subrange(i, i + varint_bytes(v).len()) == varint_bytes(v),
        varint_bytes(v).len() + k <= 10,
    ensures
        varint_from(s, i, k) == Some((v, i + varint_bytes(v).len())),
    decreases v,
{
    let b = varint_bytes(v);
    assert(s[i] == b[0]);
    if v >= 128 {
        let rest = varint_bytes(v / 128);
        assert(b == seq![(v % 128 + 128) as u8] + rest);
        assert(s.subrange(i + 1, i + 1 + rest.len()) =~= b.subrange(1, b.len() as int));
        assert(b.subrange(1, b.len() as int) =~= rest);
        lemma_read_varint_bytes(s, i + 1, v / 128, k + 1);
    }
}

/// The varint bytes of a 64-bit value read back as that value.
pub proof fn lemma_varint_at_bytes(s: Seq<u8>, i: int, v: u64)
    requires
        0 <= i,
        i + varint_bytes(v as nat).len() <= s.len(),
        s.subrange(i, i + varint_bytes(v as nat).len()) == varint_bytes(v as nat),
    ensures
        varint_at(s, i) == Some((v, i + varint_bytes(v as nat).len())),
{
    lemma_varint_bytes_len_u64(v);
    lemma_read_varint_bytes(s, i, v as nat, 0);
}

/// A length-delimited field written at `p` is read back as a span of its bytes.
pub proof fn lemma_len_field_at(s: Seq<u8>, p: int, number: u32, b: Seq<u8>)
    requires
        1 <= number < 0x2000_0000,
        0 <= p,
        p + len_field(number, b).len() <= s.len(),
        s.len() <= usize::MAX,
        s.subrange(p, p + len_field(number, b).len()) == len_field(number, b),
    ensures
        field_at(s, p) == Some(
            Field {
                number,
                body: FieldBody::Span(
                    (p + len_field(number, b).len() - b.len()) as usize,
                    (p + len_field(number, b).len()) as usize,
                ),
                next: (p + len_field(number, b).len()) as usize,
            },
        ),
        s.subrange(p + len_field(number, b).len() - b.len(), p + len_field(number, b).len()) == b,
{
    let key = (number * 8 + WIRE_LEN) as u64;
    let kb = varint_bytes(key as nat);
    let lb = varint_bytes(b.len());
    let whole = len_field(number, b);
    assert(whole == kb + lb + b);
    assert(s.subrange(p, p + kb.len()) =~= whole.subrange(0, kb.len() as int));
    assert(whole.subrange(0, kb.len() as int) =~= kb);
    lemma_varint_at_bytes(s, p, key);
    assert(key / 8 == number as u64 && key % 8 == WIRE_LEN);
    let q = p + kb.len();
    assert(b.len() <= u64::MAX);
    let n = b.len() as u64;
    assert(s.subrange(q, q + lb.len()) =~= whole.subrange(kb.len() as int, (kb.len() + lb.len()) as int));
    assert(whole.subrange(kb.len() as int, (kb.len() + lb.len()) as int) =~= lb);
    lemma_varint_at_bytes(s, q, n);
    let e = q + lb.len();
    assert(s.subrange(e, e + b.len()) =~= whole.subrange((kb.len() + lb.len()) as int, whole.len() as int));
    assert(whole.subrange((kb.len() + lb.len()) as int, whole.len() as int) =~= b);
}

/// A varint field written at `p` is read back with its value.
pub proof fn lemma_varint_field_at(s: Seq<u8>, p: int, number: u32, v: u64)
    requires
        1 <= number < 0x2000_0000,
        0 <= p,
        p + varint_field(number, v).len() <= s.len(),
        s.len() <= usize::MAX,
        s.subrange(p, p + varint_field(number, v).len()) == varint_field(number, v),
    ensures
        field_at(s, p) == Some(
            Field {
                number,
                body: FieldBody::Varint(v),
                next: (p + varint_field(number, v).len()) as usize,
            },
        ),
{
    let key = (number * 8 + WIRE_VARINT) as u64;
    let kb = varint_bytes(key as nat);
    let vb = varint_bytes(v as nat);
    let whole = varint_field(number, v);
    assert(whole == kb + vb);
    assert(s.subrange(p, p + kb.len()) =~= whole.subrange(0, kb.len() as int));
    assert(whole.subrange(0, kb.len() as int) =~= kb);
    lemma_varint_at_bytes(s, p, key);
    assert(key / 8 == number as u64 && key % 8 == WIRE_VARINT);
    let q = p + kb.len();
    assert(s.subrange(q, q + vb.len()) =~= whole.subrange(kb.len() as int, whole.len() as int));
    assert(whole.subrange(kb.len() as int, whole.len() as int) =~= vb);
    lemma_varint_at_bytes(s, q, v);
}

/// Whether two byte strings are equal.
pub fn bytes_equal(a: &[u8], b: &[u8]) -> (r: bool)
    ensures
        r == (a@ == b@),
{
    if a.len() != b.len() {
        return false;
    }
    let mut i: usize = 0;
    while i < a.len()
        invariant
            a@.len() == b@.len(),
            i <= a@.len(),
            a@.take(i as int) == b@.take(i as int),
        decreases a.len() - i,
    {
        if a[i] != b[i] {
            return false;
        }
        assert(a@.take(i + 1) =~= a@.take(i as int).push(a@[i as int]));
        assert(b@.take(i + 1) =~= b@.take(i as int).push(b@[i as int]));
        i = i + 1;
    }
    assert(a@ =~= a@.take(i as int));
    assert(b@ =~= b@.take(i as int));
    true
}

} // verus!
