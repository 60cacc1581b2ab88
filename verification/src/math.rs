//! Saturating fixed-point arithmetic and exact linear interpolation.
//! All simulation arithmetic saturates at the representable range, so
//! no step of the core can overflow or panic.

use vstd::prelude::*;

verus! {

/// `v` clamped to the representable `i64` range.
pub open spec fn clamp_i64(v: int) -> int {
    if v > i64::MAX as int {
        i64::MAX as int
    } else if v < i64::MIN as int {
        i64::MIN as int
    } else {
        v
    }
}

pub open spec fn spec_sat_add(a: int, b: int) -> int {
    clamp_i64(a + b)
}

pub open spec fn spec_sat_sub(a: int, b: int) -> int {
    clamp_i64(a - b)
}

pub fn sat_add(a: i64, b: i64) -> (r: i64)
    ensures
        r as int == spec_sat_add(a as int, b as int),
{
    if b >= 0 {
        if a > i64::MAX - b {
            i64::MAX
        } else {
            a + b
        }
    } else {
        if a < i64::MIN - b {
            i64::MIN
        } else {
            a + b
        }
    }
}

pub fn sat_sub(a: i64, b: i64) -> (r: i64)
    ensures
        r as int == spec_sat_sub(a as int, b as int),
{
    if b >= 0 {
        if a < i64::MIN + b {
            i64::MIN
        } else {
            a - b
        }
    } else {
        if a > i64::MAX + b {
            i64::MAX
        } else {
            a - b
        }
    }
}

/// The absolute distance between two values, as a mathematical integer.
pub open spec fn spec_abs_diff(a: int, b: int) -> int {
    if a >= b {
        a - b
    } else {
        b - a
    }
}

/// Whether `a` and `b` differ by at most `tol`.
pub fn within_tol(a: i64, b: i64, tol: u64) -> (r: bool)
    ensures
        r <==> spec_abs_diff(a as int, b as int) <= tol as int,
{
    let wa: i128 = a as i128;
    let wb: i128 = b as i128;
    let d: i128 = if wa >= wb {
        wa - wb
    } else {
        wb - wa
    };
    d <= tol as i128
}

/// The exact value of `a + (b - a) * num / den` with the division rounded
/// toward `a`; the interpolant never leaves the closed interval between
/// `a` and `b`.
pub open spec fn spec_lerp(a: int, b: int, num: int, den: int) -> int {
    if b >= a {
        a + (b - a) * num / den
    } else {
        a - (a - b) * num / den
    }
}

/// Linear interpolation between `a` (at `num == 0`) and `b` (at
/// `num == den`), computed exactly in wide arithmetic.
pub fn lerp_i64(a: i64, b: i64, num: u64, den: u64) -> (r: i64)
    requires
        den > 0,
        num <= den,
    ensures
        r as int == spec_lerp(a as int, b as int, num as int, den as int),
        a <= b ==> a <= r <= b,
        b <= a ==> b <= r <= a,
        num == 0 ==> r == a,
        num == den ==> r == b,
{
    if b >= a {
        let gap: u128 = (b as i128 - a as i128) as u128;
        proof {
            lemma_lerp_product_fits(gap as int, num as int);
        }
        let off: u128 = gap * (num as u128) / (den as u128);
        proof {
            lemma_lerp_offset_bounds(gap as int, num as int, den as int);
        }
        (a as i128 + off as i128) as i64
    } else {
        let gap: u128 = (a as i128 - b as i128) as u128;
        proof {
            lemma_lerp_product_fits(gap as int, num as int);
        }
        let off: u128 = gap * (num as u128) / (den as u128);
        proof {
            lemma_lerp_offset_bounds(gap as int, num as int, den as int);
        }
        (a as i128 - off as i128) as i64
    }
}

/// The result of `spec_lerp` lies in the closed interval between its
/// endpoints: interpolation never extrapolates.
pub proof fn lemma_lerp_bounded(a: int, b: int, num: int, den: int)
    requires
        den > 0,
        0 <= num <= den,
    ensures
        a <= b ==> a <= spec_lerp(a, b, num, den) <= b,
        b <= a ==> b <= spec_lerp(a, b, num, den) <= a,
        num == 0 ==> spec_lerp(a, b, num, den) == a,
        num == den ==> spec_lerp(a, b, num, den) == b,
{
    if b >= a {
        lemma_lerp_offset_bounds(b - a, num, den);
    } else {
        lemma_lerp_offset_bounds(a - b, num, den);
    }
}

/// A distance between two `i64` values times a `u64` fraction numerator
/// stays inside the `u128` range.
proof fn lemma_lerp_product_fits(gap: int, num: int)
    requires
        0 <= gap < 0x1_0000_0000_0000_0000,
        0 <= num < 0x1_0000_0000_0000_0000,
    ensures
        0 <= gap * num <= 0xffff_ffff_ffff_fffe_0000_0000_0000_0001,
{
    assert(0 <= gap * num <= 0xffff_ffff_ffff_fffe_0000_0000_0000_0001) by (nonlinear_arith)
        requires
            0 <= gap <= 0xffff_ffff_ffff_ffff,
            0 <= num <= 0xffff_ffff_ffff_ffff,
    ;
}

/// The interpolation offset `gap * num / den` is between `0` and `gap`,
/// and hits the endpoints exactly at `num == 0` and `num == den`.
proof fn lemma_lerp_offset_bounds(gap: int, num: int, den: int)
    requires
        gap >= 0,
        den > 0,
        0 <= num <= den,
    ensures
        0 <= gap * num / den <= gap,
        num == 0 ==> gap * num / den == 0,
        num == den ==> gap * num / den == gap,
{
    assert(0 <= gap * num / den <= gap) by (nonlinear_arith)
        requires
            gap >= 0,
            den > 0,
            0 <= num <= den,
    ;
    if num == 0 {
        assert(gap * 0 == 0);
    }
    if num == den {
        assert(gap * den / den == gap) by (nonlinear_arith)
            requires
                den > 0,
        ;
    }
}

} // verus!
