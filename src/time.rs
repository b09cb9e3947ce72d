//! Points in time and lengths of time, kept as nanoseconds since the Unix epoch.

use vstd::prelude::*;

verus! {

/// Nanoseconds in one second.
pub const NANOS_PER_SECOND: u128 = 1_000_000_000;

/// The greatest duration that the wire `Duration` can carry, in nanoseconds.
pub const MAX_DURATION_NANOS: u128 = 9_223_372_036_854_775_807_999_999_999;

/// A wire timestamp: seconds and nanoseconds since the Unix epoch, both signed.
#[derive(Clone, Copy, Debug, Default, PartialEq, Eq, Structural)]
pub struct Timestamp {
    pub seconds: i64,
    pub nanos: i32,
}

/// A wire duration: seconds and nanoseconds, both signed.
#[derive(Clone, Copy, Debug, Default, PartialEq, Eq, Structural)]
pub struct Duration {
    pub seconds: i64,
    pub nanos: i32,
}

/// The signed number of nanoseconds that a pair of seconds and nanoseconds denotes.
pub open spec fn signed_nanos(seconds: i64, nanos: i32) -> int {
    seconds as int * NANOS_PER_SECOND as int + nanos as int
}

/// What an optional timestamp denotes, in nanoseconds since the epoch: an absent one
/// is the epoch itself; one with a negative field is malformed.
pub open spec fn timestamp_value(ts: Option<Timestamp>) -> Option<int> {
    match ts {
        None => Some(0),
        Some(t) => if t.seconds >= 0 && t.nanos >= 0 {
            Some(signed_nanos(t.seconds, t.nanos))
        } else {
            None
        },
    }
}

/// What an optional duration denotes, in nanoseconds: an absent one is zero; a
/// negative one is malformed; one past the wire range is held at its greatest value.
pub open spec fn duration_value(d: Option<Duration>) -> Option<int> {
    match d {
        None => Some(0),
        Some(d) => {
            let v = signed_nanos(d.seconds, d.nanos);
            if v < 0 {
                None
            } else if v > MAX_DURATION_NANOS {
                Some(MAX_DURATION_NANOS as int)
            } else {
                Some(v)
            }
        },
    }
}

/// The wire timestamp of a non-negative number of nanoseconds.
pub open spec fn timestamp_of(t: int) -> Timestamp {
    Timestamp {
        seconds: (t / NANOS_PER_SECOND as int) as i64,
        nanos: (t % NANOS_PER_SECOND as int) as i32,
    }
}

/// Whether `t` nanoseconds can be written as a wire timestamp.
pub open spec fn fits_timestamp(t: int) -> bool {
    0 <= t && t / NANOS_PER_SECOND as int <= i64::MAX
}

/// Relies on prost-types' conversion of a `prost_types::Duration` into a
/// `std::time::Duration`: on a value that is not negative it carries whole seconds
/// out of the nanoseconds, and holds a value past the wire range at the greatest
/// one (`i64::MAX` seconds and 999,999,999 nanoseconds). Negative values are left
/// out: on one with `i64::MIN` seconds the conversion overflows.
#[verifier::external_body]
fn duration_from_wire(seconds: i64, nanos: i32) -> (r: Option<(u64, u32)>)
    requires
        signed_nanos(seconds, nanos) >= 0,
    ensures
        r is Some && (r->0).1 < NANOS_PER_SECOND && (r->0).0
            * NANOS_PER_SECOND as int + (r->0).1 == if signed_nanos(seconds, nanos)
            > MAX_DURATION_NANOS {
            MAX_DURATION_NANOS as int
        } else {
            signed_nanos(seconds, nanos)
        },
{
    let d = prost_types::Duration { seconds, nanos };
    std::time::Duration::try_from(d).ok().map(|v| (v.as_secs(), v.subsec_nanos()))
}

/// Reads an optional wire timestamp as nanoseconds since the epoch.
pub fn parse_timestamp(ts: &Option<Timestamp>) -> (r: Option<u128>)
    ensures
        match timestamp_value(*ts) {
            None => r is None,
            Some(v) => r == Some(v as u128),
        },
        r is Some ==> r->0 < 10_000_000_000_000_000_000_000_000_000,
{
    match ts {
        None => Some(0),
        Some(t) => {
            if t.seconds < 0 || t.nanos < 0 {
                None
            } else {
                Some((t.seconds as u128) * NANOS_PER_SECOND + (t.nanos as u128))
            }
        },
    }
}

/// Reads an optional wire duration as nanoseconds.
pub fn parse_duration(d: &Option<Duration>) -> (r: Option<u128>)
    ensures
        match duration_value(*d) {
            None => r is None,
            Some(v) => r == Some(v as u128),
        },
        r is Some ==> r->0 <= MAX_DURATION_NANOS,
{
    match d {
        None => Some(0),
        Some(d) => if (d.seconds as i128) * 1_000_000_000i128 + (d.nanos as i128) < 0 {
            None
        } else {
            match duration_from_wire(d.seconds, d.nanos) {
            None => None,
                Some((secs, nanos)) => Some((secs as u128) * NANOS_PER_SECOND + (nanos as u128)),
            }
        },
    }
}

/// Writes a number of nanoseconds as a wire timestamp.
pub fn to_timestamp(t: u128) -> (r: Timestamp)
    requires
        fits_timestamp(t as int),
    ensures
        r == timestamp_of(t as int),
        signed_nanos(r.seconds, r.nanos) == t,
{
    Timestamp { seconds: (t / NANOS_PER_SECOND) as i64, nanos: (t % NANOS_PER_SECOND) as i32 }
}

} // verus!
