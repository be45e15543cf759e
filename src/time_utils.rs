//! Conversions between timestamps and signed offsets from the Unix epoch.
//!
//! A timestamp holds whole seconds rounded down and the nanoseconds past
//! them, always below one second, so that its order is the order of the
//! instants.

use vstd::prelude::*;
use crate::meta::{Timestamp, timestamp_lt};

verus! {

/// Nanoseconds in a second.
pub const NANOS_PER_SEC: u32 = 1_000_000_000;

/// The nanoseconds part lies below one second.
pub open spec fn normalized(t: Timestamp) -> bool {
    t.1 < NANOS_PER_SEC
}

/// The instant of a timestamp, in nanoseconds since the epoch.
pub open spec fn instant_of(t: Timestamp) -> int {
    t.0 as int * NANOS_PER_SEC as int + t.1 as int
}

/// The instant of an offset from the epoch, in nanoseconds.
pub open spec fn offset_nanos(before_epoch: bool, secs: u64, nanos: u32) -> int {
    if before_epoch {
        -(secs as int * NANOS_PER_SEC as int + nanos as int)
    } else {
        secs as int * NANOS_PER_SEC as int + nanos as int
    }
}

/// The offset from the epoch that a timestamp stands for: whether it lies
/// before the epoch, and the whole seconds and nanoseconds of its distance.
pub open spec fn offset_of(t: Timestamp) -> (bool, u64, u32) {
    if t.0 >= 0 {
        (false, t.0 as u64, t.1)
    } else if t.1 == 0 {
        (true, (-(t.0 as int)) as u64, 0)
    } else {
        (true, (-(t.0 as int) - 1) as u64, (NANOS_PER_SEC - t.1) as u32)
    }
}

/// The timestamp of an offset from the epoch.
pub open spec fn timestamp_of(before_epoch: bool, secs: u64, nanos: u32) -> Timestamp {
    if !before_epoch {
        (secs as i64, nanos)
    } else if nanos == 0 {
        ((-(secs as int)) as i64, 0)
    } else {
        ((-(secs as int) - 1) as i64, (NANOS_PER_SEC - nanos) as u32)
    }
}

/// Splits a timestamp into its direction from the epoch and its distance.
pub fn epoch_offset_of(t: Timestamp) -> (r: (bool, u64, u32))
    requires
        normalized(t),
    ensures
        r == offset_of(t),
        offset_nanos(r.0, r.1, r.2) == instant_of(t),
        r.2 < NANOS_PER_SEC,
{
    if t.0 >= 0 {
        (false, t.0 as u64, t.1)
    } else if t.1 == 0 {
        let below = -(t.0 + 1);
        (true, below as u64 + 1, 0)
    } else {
        let below = -(t.0 + 1);
        (true, below as u64, NANOS_PER_SEC - t.1)
    }
}

/// The timestamp of a distance from the epoch.
pub fn timestamp_from_epoch_offset(before_epoch: bool, secs: u64, nanos: u32) -> (r: Timestamp)
    requires
        secs <= i64::MAX,
        nanos < NANOS_PER_SEC,
    ensures
        r == timestamp_of(before_epoch, secs, nanos),
        instant_of(r) == offset_nanos(before_epoch, secs, nanos),
        normalized(r),
{
    let s = secs as i64;
    if !before_epoch {
        (s, nanos)
    } else if nanos == 0 {
        (-s, 0)
    } else {
        (-s - 1, NANOS_PER_SEC - nanos)
    }
}

/// Splitting a timestamp and joining the parts gives it back.
pub proof fn lemma_offset_round_trip(t: Timestamp)
    requires
        normalized(t),
    ensures
        ({
            let o = offset_of(t);
            timestamp_of(o.0, o.1, o.2) == t
        }),
{
}

/// Joining an offset and splitting the timestamp gives the offset back; the
/// epoch itself is the one offset that is not before it.
pub proof fn lemma_timestamp_round_trip(before_epoch: bool, secs: u64, nanos: u32)
    requires
        secs <= i64::MAX,
        nanos < NANOS_PER_SEC,
        !(before_epoch && secs == 0 && nanos == 0),
    ensures
        offset_of(timestamp_of(before_epoch, secs, nanos)) == (before_epoch, secs, nanos),
{
}

/// On normalised timestamps, the order of the pairs is the order of the instants.
pub proof fn lemma_timestamp_order(a: Timestamp, b: Timestamp)
    requires
        normalized(a),
        normalized(b),
    ensures
        timestamp_lt(a, b) <==> instant_of(a) < instant_of(b),
{
    let n = NANOS_PER_SEC as int;
    let (a0, a1, b0, b1) = (a.0 as int, a.1 as int, b.0 as int, b.1 as int);
    if a0 < b0 {
        assert(a0 * n + a1 < b0 * n + b1) by (nonlinear_arith)
            requires
                a0 < b0,
                0 <= a1 < n,
                0 <= b1,
                n > 0,
        ;
    } else if a0 > b0 {
        assert(b0 * n + b1 < a0 * n + a1) by (nonlinear_arith)
            requires
                b0 < a0,
                0 <= b1 < n,
                0 <= a1,
                n > 0,
        ;
    }
}

} // verus!
