//! Arithmetic on 32-bit clocks and sequence numbers that wrap at 2^32.
//!
//! Two values are compared by their difference modulo 2^32, never with `<`: either as a
//! signed difference ([`seq_diff`]) or as the distance of one value ahead of a base
//! ([`seq_offset`]).
use vstd::prelude::*;

verus! {

/// The signed difference `a - b` of two wrapping 32-bit values: the one integer in
/// `[-2^31, 2^31)` that is congruent to `a - b` modulo 2^32.
pub open spec fn seq_diff(a: u32, b: u32) -> int {
    let d = a as int - b as int;
    if d >= 0x8000_0000 {
        d - 0x1_0000_0000
    } else if d < -0x8000_0000 {
        d + 0x1_0000_0000
    } else {
        d
    }
}

/// How far `sn` lies ahead of `base`, counted modulo 2^32: a value in `[0, 2^32)`.
pub open spec fn seq_offset(base: u32, sn: u32) -> int {
    if sn >= base {
        sn as int - base as int
    } else {
        sn as int - base as int + 0x1_0000_0000
    }
}

/// The value that lies `k` ahead of `base`, counted modulo 2^32.
pub open spec fn seq_add(base: u32, k: int) -> u32 {
    ((base as int + k) % 0x1_0000_0000) as u32
}

/// Adding with wrap-around is stepping ahead modulo 2^32.
pub proof fn lemma_wrapping_add_is_seq_add(base: u32, k: u32)
    ensures
        vstd::wrapping::u32_specs::wrapping_add(base, k) == seq_add(base, k as int),
        seq_offset(base, seq_add(base, k as int)) == k,
{
}

/// Stepping ahead twice is stepping ahead by the sum.
pub proof fn lemma_seq_add_twice(base: u32, a: int, b: int)
    ensures
        seq_add(seq_add(base, a), b) == seq_add(base, a + b),
{
    let m = 0x1_0000_0000int;
    let x = base as int + a;
    assert(((x % m) + b) % m == (x + b) % m) by {
        vstd::arithmetic::div_mod::lemma_add_mod_noop(x, b, m);
        vstd::arithmetic::div_mod::lemma_add_mod_noop(x % m, b, m);
        vstd::arithmetic::div_mod::lemma_mod_twice(x, m);
    }
}

/// `value` clamped to `[lower, upper]`; where the bounds cross, `upper` wins.
pub open spec fn spec_bound(lower: u32, value: u32, upper: u32) -> u32 {
    let raised = if value < lower { lower } else { value };
    if raised > upper { upper } else { raised }
}

/// Signed difference between two wrapping millisecond clocks or sequence numbers.
pub fn time_diff(later: u32, earlier: u32) -> (d: i32)
    ensures
        d as int == seq_diff(later, earlier),
{
    let gap: u32 = later.wrapping_sub(earlier);
    if gap < 0x8000_0000 {
        gap as i32
    } else {
        let back: u32 = u32::MAX - gap;
        -(back as i32) - 1
    }
}

/// Distance of `sn` ahead of `base` modulo 2^32.
pub fn offset_from(base: u32, sn: u32) -> (k: u32)
    ensures
        k as int == seq_offset(base, sn),
{
    sn.wrapping_sub(base)
}

/// Clamps `value` into `[lower, upper]`.
pub fn bound(lower: u32, value: u32, upper: u32) -> (r: u32)
    ensures
        r == spec_bound(lower, value, upper),
        lower <= upper ==> lower <= r <= upper,
{
    let raised: u32 = if value < lower { lower } else { value };
    if raised > upper { upper } else { raised }
}

/// Within half the number space the offset ahead of a base and the signed difference
/// agree.
pub proof fn lemma_offset_is_diff(base: u32, sn: u32)
    ensures
        0 <= seq_offset(base, sn) < 0x1_0000_0000,
        seq_offset(base, sn) < 0x8000_0000 ==> seq_diff(sn, base) == seq_offset(base, sn),
        seq_offset(base, sn) >= 0x8000_0000 ==> seq_diff(sn, base) == seq_offset(base, sn)
            - 0x1_0000_0000,
        seq_offset(base, sn) == 0 <==> sn == base,
{
}

} // verus!
