//! Saturating pixel arithmetic.
//!
//! Pixel coordinates and sizes are `i64` values. Sums and differences
//! saturate at the ends of the `i64` range instead of overflowing, so every
//! layout computation is total.

use vstd::prelude::*;

verus! {

/// Clamps a mathematical integer into the `i64` range.
pub open spec fn sat(x: int) -> int {
    if x > i64::MAX as int {
        i64::MAX as int
    } else if x < i64::MIN as int {
        i64::MIN as int
    } else {
        x
    }
}

/// Halving that rounds toward zero, as machine division by two does.
pub open spec fn half_spec(x: int) -> int {
    if x >= 0 {
        x / 2
    } else {
        -((-x) / 2)
    }
}

/// Saturating addition of two pixel quantities.
pub fn sat_add(a: i64, b: i64) -> (r: i64)
    ensures
        r as int == sat(a as int + b as int),
{
    let s: i128 = a as i128 + b as i128;
    if s > i64::MAX as i128 {
        i64::MAX
    } else if s < i64::MIN as i128 {
        i64::MIN
    } else {
        s as i64
    }
}

/// Saturating subtraction of two pixel quantities.
pub fn sat_sub(a: i64, b: i64) -> (r: i64)
    ensures
        r as int == sat(a as int - b as int),
{
    let s: i128 = a as i128 - b as i128;
    if s > i64::MAX as i128 {
        i64::MAX
    } else if s < i64::MIN as i128 {
        i64::MIN
    } else {
        s as i64
    }
}

/// Halves a pixel quantity, rounding toward zero.
pub fn half(a: i64) -> (r: i64)
    ensures
        r as int == half_spec(a as int),
{
    if a >= 0 {
        ((a as u64) / 2) as i64
    } else {
        let m: u64 = (-(a as i128)) as u64;
        let q: u64 = m / 2;
        -(q as i64)
    }
}

} // verus!
