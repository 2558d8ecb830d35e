//! Fixed-point vectors and orientations, and the blending of two scalars.

use vstd::prelude::*;

verus! {

/// A three-component vector of fixed-point numbers, in the caller's scale.
#[derive(Clone, Copy, Debug, PartialEq, Eq, Structural)]
pub struct Vec3 {
    pub x: i64,
    pub y: i64,
    pub z: i64,
}

/// An orientation as a quaternion with fixed-point components.
///
/// The scale is the caller's; a common choice is thirty fractional bits. The
/// quaternions `q` and `-q` stand for the same orientation.
#[derive(Clone, Copy, Debug, PartialEq, Eq, Structural)]
pub struct Quat {
    pub x: i32,
    pub y: i32,
    pub z: i32,
    pub w: i32,
}

/// The value `num / den` of the way from `a` to `b`, rounded towards `a`.
pub open spec fn lerp(a: int, b: int, num: int, den: int) -> int {
    if b >= a {
        a + ((b - a) * num) / den
    } else {
        a - ((a - b) * num) / den
    }
}

/// A blended value never leaves the closed range between its two ends.
pub proof fn lemma_lerp_between(a: int, b: int, num: int, den: int)
    requires
        0 <= num <= den,
        0 < den,
    ensures
        a <= b ==> a <= lerp(a, b, num, den) <= b,
        b <= a ==> b <= lerp(a, b, num, den) <= a,
        num == 0 ==> lerp(a, b, num, den) == a,
        num == den ==> lerp(a, b, num, den) == b,
{
    let span: int = if b >= a { b - a } else { a - b };
    lemma_scaled_span(span, num, den);
}

/// For a fraction `num / den` in `[0, 1]`, `span * num / den` lies in `[0, span]`.
pub proof fn lemma_scaled_span(span: int, num: int, den: int)
    requires
        0 <= span,
        0 <= num <= den,
        0 < den,
    ensures
        0 <= (span * num) / den <= span,
        num == 0 ==> (span * num) / den == 0,
        num == den ==> (span * num) / den == span,
{
    assert(0 <= span * num <= span * den) by (nonlinear_arith)
        requires
            0 <= span,
            0 <= num <= den,
    ;
    vstd::arithmetic::div_mod::lemma_div_is_ordered(span * num, span * den, den);
    vstd::arithmetic::div_mod::lemma_div_multiples_vanish(span, den);
    assert(span * den == den * span) by (nonlinear_arith);
    if num == 0 {
        assert(span * num == 0) by (nonlinear_arith)
            requires
                num == 0,
        ;
    }
}

/// Blends two scalars; `num / den` is the fraction of the way from `a` to `b`.
pub fn lerp_scalar(a: i64, b: i64, num: i64, den: i64) -> (r: i64)
    requires
        0 <= num <= den,
        0 < den,
    ensures
        r == lerp(a as int, b as int, num as int, den as int),
{
    let n: u128 = num as u128;
    let d: u128 = den as u128;
    if b >= a {
        let span: u128 = (b as i128 - a as i128) as u128;
        proof {
            lemma_scaled_span(span as int, num as int, den as int);
            assert(span * n <= 0x1_0000_0000_0000_0000 * 0x8000_0000_0000_0000) by (nonlinear_arith)
                requires
                    0 <= span < 0x1_0000_0000_0000_0000,
                    0 <= n < 0x8000_0000_0000_0000,
            ;
        }
        let step: u128 = span * n / d;
        (a as i128 + step as i128) as i64
    } else {
        let span: u128 = (a as i128 - b as i128) as u128;
        proof {
            lemma_scaled_span(span as int, num as int, den as int);
            assert(span * n <= 0x1_0000_0000_0000_0000 * 0x8000_0000_0000_0000) by (nonlinear_arith)
                requires
                    0 <= span < 0x1_0000_0000_0000_0000,
                    0 <= n < 0x8000_0000_0000_0000,
            ;
        }
        let step: u128 = span * n / d;
        (a as i128 - step as i128) as i64
    }
}

} // verus!
