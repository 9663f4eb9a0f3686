//! Counters that wrap around at the width of their type.

use vstd::prelude::*;

verus! {

/// `v` modulo 2^64, as an unsigned number.
pub open spec fn wrap_u64(v: int) -> u64 {
    (v % 0x1_0000_0000_0000_0000) as u64
}

/// `v` modulo 2^64, as a signed number.
pub open spec fn wrap_i64(v: int) -> i64 {
    ((v + 0x8000_0000_0000_0000) % 0x1_0000_0000_0000_0000 - 0x8000_0000_0000_0000) as i64
}

/// `x + n`, wrapping around.
pub fn count_up(x: u64, n: usize) -> (r: u64)
    ensures
        r == wrap_u64(x + n),
{
    x.wrapping_add(n as u64)
}

/// `x - 1`, wrapping around.
pub fn count_down(x: u64) -> (r: u64)
    ensures
        r == wrap_u64(x - 1),
{
    x.wrapping_sub(1)
}

/// `x + 1`, wrapping around.
pub fn gauge_up(x: i64) -> (r: i64)
    ensures
        r == wrap_i64(x + 1),
{
    x.wrapping_add(1)
}

/// `x - n`, wrapping around.
pub fn gauge_down(x: i64, n: usize) -> (r: i64)
    ensures
        r == wrap_i64(x - n),
{
    let m: u64 = n as u64;
    let half: u64 = 0x4000_0000_0000_0000;
    if m <= half {
        x.wrapping_sub(m as i64)
    } else if m <= 2 * half {
        x.wrapping_sub(half as i64).wrapping_sub((m - half) as i64)
    } else if m <= 3 * half {
        x.wrapping_sub(half as i64).wrapping_sub(half as i64).wrapping_sub((m - 2 * half) as i64)
    } else {
        x.wrapping_sub(half as i64).wrapping_sub(half as i64).wrapping_sub(half as i64).wrapping_sub(
            (m - 3 * half) as i64,
        )
    }
}

/// Wrapping once or at every step makes no difference.
pub proof fn lemma_wrap_steps(x: int, d: int)
    ensures
        wrap_i64(wrap_i64(x) + d) == wrap_i64(x + d),
        wrap_u64(wrap_u64(x) + d) == wrap_u64(x + d),
        wrap_i64(wrap_u64(x) + d) == wrap_i64(x + d),
{
}

} // verus!
