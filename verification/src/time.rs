//! Time values on a timeline.
//!
//! A time is kept as the bit pattern of an IEEE-754 single precision number.
//! Two such patterns are compared through an integer key: for every value
//! other than NaN the key orders exactly as the numbers do, and `+0.0` and
//! `-0.0` get the same key.
use vstd::prelude::*;

verus! {

/// Bit pattern of the single precision number `0.0`.
pub const ZERO_TIME: u32 = 0u32;

/// The integer by which a time is ordered.
pub open spec fn order_key(bits: u32) -> int {
    if bits & 0x8000_0000u32 == 0 {
        bits as int
    } else {
        -((bits & 0x7fff_ffffu32) as int)
    }
}

/// Whether the bit pattern is a NaN.
pub open spec fn is_nan_bits(bits: u32) -> bool {
    &&& bits & 0x7f80_0000u32 == 0x7f80_0000u32
    &&& bits & 0x007f_ffffu32 != 0
}

/// Computes the order key of a time.
pub fn time_order_key(bits: u32) -> (key: i64)
    ensures
        key == order_key(bits),
{
    if bits & 0x8000_0000u32 == 0 {
        bits as i64
    } else {
        let magnitude: u32 = bits & 0x7fff_ffffu32;
        -(magnitude as i64)
    }
}

/// Whether a time is not a number.
pub fn time_is_nan(bits: u32) -> (r: bool)
    ensures
        r == is_nan_bits(bits),
{
    bits & 0x7f80_0000u32 == 0x7f80_0000u32 && bits & 0x007f_ffffu32 != 0
}

/// Whether time `a` comes strictly before time `b`.
pub fn time_lt(a: u32, b: u32) -> (r: bool)
    ensures
        r == (order_key(a) < order_key(b)),
{
    time_order_key(a) < time_order_key(b)
}

/// Whether times `a` and `b` are at the same point.
pub fn time_eq(a: u32, b: u32) -> (r: bool)
    ensures
        r == (order_key(a) == order_key(b)),
{
    time_order_key(a) == time_order_key(b)
}


/// Whether the times are in order of their keys.
pub open spec fn keys_sorted(times: Seq<u32>) -> bool {
    forall|i: int, j: int| 0 <= i <= j < times.len() ==> order_key(times[i]) <= order_key(times[j])
}

/// `index` splits `times` into the times before `time` and those at or after it.
pub open spec fn is_partition_point(times: Seq<u32>, time: u32, index: int) -> bool {
    &&& 0 <= index <= times.len()
    &&& forall|j: int| 0 <= j < index ==> order_key(#[trigger] times[j]) < order_key(time)
    &&& forall|j: int| index <= j < times.len() ==> order_key(time) <= order_key(#[trigger] times[j])
}

/// The number of times in `times` that come strictly before `time`.
pub open spec fn count_before(times: Seq<u32>, time: u32) -> nat
    decreases times.len(),
{
    if times.len() == 0 {
        0
    } else {
        count_before(times.drop_last(), time) + if order_key(times.last()) < order_key(time) {
            1nat
        } else {
            0nat
        }
    }
}

/// In sorted times, the partition point of a time is the number of times before it.
pub proof fn lemma_partition_point_is_count(times: Seq<u32>, time: u32, p: int)
    requires
        keys_sorted(times),
        is_partition_point(times, time, p),
    ensures
        p == count_before(times, time),
    decreases times.len(),
{
    if times.len() > 0 {
        let init = times.drop_last();
        let last = times.len() - 1;
        assert(keys_sorted(init));
        if p == times.len() {
            assert(order_key(times[last]) < order_key(time));
            assert(is_partition_point(init, time, p - 1)) by {
                assert forall|j: int| 0 <= j < p - 1 implies order_key(#[trigger] init[j]) < order_key(time) by {
                    assert(init[j] == times[j]);
                }
            }
            lemma_partition_point_is_count(init, time, p - 1);
        } else {
            assert(order_key(time) <= order_key(times[last]));
            assert(is_partition_point(init, time, p)) by {
                assert forall|j: int| 0 <= j < p implies order_key(#[trigger] init[j]) < order_key(time) by {
                    assert(init[j] == times[j]);
                }
                assert forall|j: int| p <= j < init.len() implies order_key(time) <= order_key(#[trigger] init[j]) by {
                    assert(init[j] == times[j]);
                }
            }
            lemma_partition_point_is_count(init, time, p);
        }
    }
}

/// Binary search of `time` in `times`, in the manner of `slice::binary_search`:
/// `Ok(i)` when `times[i]` is at `time`, `Err(i)` with the place where `time`
/// would be inserted otherwise. Among equal times the first one is found.
pub fn search_time(times: &[u32], time: u32) -> (r: Result<usize, usize>)
    ensures
        match r {
            Ok(i) => i < times@.len() && order_key(times@[i as int]) == order_key(time),
            Err(i) => i <= times@.len(),
        },
        keys_sorted(times@) ==> match r {
            Ok(i) => i == count_before(times@, time),
            Err(i) => i == count_before(times@, time) && (i < times@.len() ==> order_key(time)
                < order_key(times@[i as int])),
        },
{
    let len = times.len();
    let mut lo: usize = 0;
    let mut hi: usize = len;
    let key = time_order_key(time);
    while lo < hi
        invariant
            len == times@.len(),
            key == order_key(time),
            0 <= lo <= hi <= len,
            keys_sorted(times@) ==> forall|j: int| 0 <= j < lo ==> order_key(#[trigger] times@[j]) < order_key(time),
            keys_sorted(times@) ==> forall|j: int| hi <= j < len ==> order_key(time) <= order_key(#[trigger] times@[j]),
        decreases hi - lo,
    {
        let mid: usize = lo + (hi - lo) / 2;
        if time_order_key(times[mid]) < key {
            lo = mid + 1;
        } else {
            hi = mid;
        }
    }
    proof {
        if keys_sorted(times@) {
            lemma_partition_point_is_count(times@, time, lo as int);
        }
    }
    if lo < len && time_order_key(times[lo]) == key {
        Ok(lo)
    } else {
        Err(lo)
    }
}


/// In sorted times, the number of times before `time` splits them into the
/// times before it and those at or after it.
pub proof fn lemma_count_is_partition_point(times: Seq<u32>, time: u32)
    requires
        keys_sorted(times),
    ensures
        is_partition_point(times, time, count_before(times, time) as int),
    decreases times.len(),
{
    if times.len() > 0 {
        let init = times.drop_last();
        let last = times.len() - 1;
        assert(keys_sorted(init));
        lemma_count_is_partition_point(init, time);
        let c = count_before(init, time) as int;
        assert forall|j: int| 0 <= j < init.len() implies init[j] == times[j] by {}
        if order_key(times[last]) < order_key(time) {
            // every earlier time is before `time` too
            assert forall|j: int| 0 <= j < last implies order_key(#[trigger] times[j]) < order_key(time) by {
                assert(order_key(times[j]) <= order_key(times[last]));
            }
            if c < init.len() {
                assert(order_key(time) <= order_key(init[c]));
                assert(order_key(init[c]) < order_key(time));
            }
        } else {
            assert(order_key(time) <= order_key(times[last]));
        }
    }
}

/// `+0.0` and `-0.0` are at the same time.
pub proof fn lemma_zeros_equal()
    ensures
        order_key(0x8000_0000u32) == order_key(0u32),
{
    assert(0x8000_0000u32 & 0x8000_0000u32 != 0) by (bit_vector);
    assert(0x8000_0000u32 & 0x7fff_ffffu32 == 0) by (bit_vector);
    assert(0u32 & 0x8000_0000u32 == 0) by (bit_vector);
}

} // verus!
