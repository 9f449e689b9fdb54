//! Fixed-point arithmetic for continuous stat values.
//!
//! A continuous quantity (speed, damage per second, a duration) is held as an
//! `i64` counting thousandths: `1500` stands for one and a half units.
//! Percentages use the same scale: `25_000` stands for 25 %. All operations
//! saturate at the `i64` bounds, and their results are pinned down exactly by
//! the spec functions below.

use vstd::prelude::*;

verus! {

/// Result of clamping an unbounded integer into the `i64` range.
pub open spec fn clamp_i64(x: int) -> int {
    if x > i64::MAX as int {
        i64::MAX as int
    } else if x < i64::MIN as int {
        i64::MIN as int
    } else {
        x
    }
}

/// Magnitude of an integer.
pub open spec fn abs_int(x: int) -> int {
    if x < 0 {
        -x
    } else {
        x
    }
}

/// Division truncating toward zero, for a positive divisor.
pub open spec fn div_trunc(a: int, b: int) -> int
    recommends
        b > 0,
{
    if a >= 0 {
        a / b
    } else {
        -((-a) / b)
    }
}

/// Growth of `value` by `pct` percent, both in thousandths: the value plus
/// `value * pct / 100`, truncated toward zero and clamped to the `i64` range.
pub open spec fn grow_by_percent(value: int, pct: int) -> int {
    clamp_i64(value + div_trunc(value * pct, 100_000))
}

/// Sign and magnitude facts about a product, under magnitude bounds on the
/// factors.
proof fn lemma_abs_mul(a: int, b: int, m: int, n: int)
    by (nonlinear_arith)
    requires
        0 <= m,
        0 <= n,
        -m <= a <= m,
        -n <= b <= n,
    ensures
        abs_int(a) * abs_int(b) == abs_int(a * b),
        abs_int(a * b) <= m * n,
        a * b < 0 ==> ((a < 0) != (b < 0)),
        ((a < 0) != (b < 0)) ==> a * b <= 0,
{
}

/// Saturating fixed-point addition.
pub fn fixed_add(a: i64, b: i64) -> (r: i64)
    ensures
        r as int == clamp_i64(a + b),
{
    let s: i128 = a as i128 + b as i128;
    if s > i64::MAX as i128 {
        i64::MAX
    } else if s < i64::MIN as i128 {
        i64::MIN
    } else {
        s as i64
    }
}

/// Saturating fixed-point subtraction.
pub fn fixed_sub(a: i64, b: i64) -> (r: i64)
    ensures
        r as int == clamp_i64(a - b),
{
    let s: i128 = a as i128 - b as i128;
    if s > i64::MAX as i128 {
        i64::MAX
    } else if s < i64::MIN as i128 {
        i64::MIN
    } else {
        s as i64
    }
}

/// Applies a percentage growth to a fixed-point value: the result is
/// `value + value * pct / 100` with both operands in thousandths,
/// truncated toward zero and saturated at the `i64` bounds.
pub fn fixed_grow_by_percent(value: i64, pct: i64) -> (r: i64)
    ensures
        r as int == grow_by_percent(value as int, pct as int),
{
    let vw: i128 = value as i128;
    let pw: i128 = pct as i128;
    proof {
        lemma_abs_mul(
            vw as int,
            pw as int,
            0x8000_0000_0000_0000,
            0x8000_0000_0000_0000,
        );
    }
    let va: u128 = (if vw < 0 {
        -vw
    } else {
        vw
    }) as u128;
    let pa: u128 = (if pw < 0 {
        -pw
    } else {
        pw
    }) as u128;
    let prod: u128 = va * pa;
    let g: u128 = prod / 100_000;
    let negative: bool = (value < 0) != (pct < 0);
    let gi: i128 = if negative {
        -(g as i128)
    } else {
        g as i128
    };
    proof {
        assert(va as int == abs_int(vw as int));
        assert(pa as int == abs_int(pw as int));
        assert(prod as int == abs_int(vw as int * pw as int));
        assert(g <= prod);
        assert(gi as int == div_trunc(vw as int * pw as int, 100_000)) by {
            if vw as int * pw as int >= 0 {
                assert(prod as int == vw as int * pw as int);
                if negative {
                    assert(vw as int * pw as int == 0);
                    assert(prod == 0);
                }
            } else {
                assert(prod as int == -(vw as int * pw as int));
                assert(negative);
            }
        }
    }
    let s: i128 = value as i128 + gi;
    if s > i64::MAX as i128 {
        i64::MAX
    } else if s < i64::MIN as i128 {
        i64::MIN
    } else {
        s as i64
    }
}

/// Sum of two whole stat amounts, saturated at the `u32` maximum.
pub open spec fn sat_add_u32(a: int, b: int) -> int {
    if a + b > u32::MAX as int {
        u32::MAX as int
    } else {
        a + b
    }
}

/// Saturating addition on `u32` stat values.
pub fn u32_saturating_add(a: u32, b: u32) -> (r: u32)
    ensures
        r as int == sat_add_u32(a as int, b as int),
{
    if a > u32::MAX - b {
        u32::MAX
    } else {
        a + b
    }
}

} // verus!
