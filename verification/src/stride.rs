//! Wraparound ordering of stride-scheduling pass values.
//!
//! A task's accumulated pass is a fixed-width unsigned counter that wraps.
//! Two passes are compared by the sign of their wrapping difference, so the
//! ordering stays correct indefinitely despite overflow; a plain unsigned
//! comparison would be wrong once a counter has wrapped.
use vstd::prelude::*;

verus! {

/// The stride numerator: enqueueing a task advances its pass by
/// `STRIDE_UNIT / priority`.
pub const STRIDE_UNIT: u64 = 0x10000;

/// Half of the 2^64 ring; differences below it count as "ahead".
pub const HALF_RING: u64 = 0x8000_0000_0000_0000;

/// Distance travelled forward around the 2^64 ring from `b` to `a`.
pub open spec fn ring_diff(a: u64, b: u64) -> int {
    if a >= b {
        a - b
    } else {
        a - b + 0x1_0000_0000_0000_0000
    }
}

/// `a` precedes `b` in wraparound order: `a - b`, taken as a signed 64-bit
/// quantity, is negative.
pub open spec fn pass_before(a: u64, b: u64) -> bool {
    ring_diff(a, b) >= HALF_RING
}

/// `k` lies within the half-ring window that starts at `base`.
pub open spec fn in_window(base: u64, k: u64) -> bool {
    ring_diff(k, base) < HALF_RING
}

/// Wraparound comparison of two pass values.
pub fn pass_lt(a: u64, b: u64) -> (r: bool)
    ensures
        r == pass_before(a, b),
{
    a.wrapping_sub(b) >= HALF_RING
}

/// Advance a pass counter by `inc`, wrapping at 2^64.
pub fn pass_advance(pass: u64, inc: u64) -> (r: u64)
    ensures
        r == vstd::wrapping::u64_specs::wrapping_add(pass, inc),
{
    pass.wrapping_add(inc)
}

/// Within one half-ring window the wraparound comparison agrees with the
/// plain order of distances from the window's base, so it is a strict total
/// order there.
pub proof fn lemma_window_order(base: u64, a: u64, b: u64)
    requires
        in_window(base, a),
        in_window(base, b),
    ensures
        pass_before(a, b) <==> ring_diff(a, base) < ring_diff(b, base),
        a == b <==> ring_diff(a, base) == ring_diff(b, base),
{
}

} // verus!
