//! Exact interpolation arithmetic on integer heights.
//!
//! Raw tide heights are integers in a fixed unit chosen by the caller
//! (thousandths of the display unit).  A normalized height is an exact
//! fraction in `[0, 1]` rather than a float, so every rounding step of
//! the renderer is fully specified.

use vstd::prelude::*;

verus! {

/// An exact fraction `num / den` with `den >= 1`.
///
/// Normalized tide heights are fractions in the unit interval
/// (`0 <= num <= den`).  Values outside the unit interval are legal and
/// saturate wherever the renderer interpolates with them; the model uses
/// a negative fraction as its off-screen sentinel.
#[derive(Clone, Copy, PartialEq, Eq, Structural, Debug)]
pub struct Frac {
    pub num: i64,
    pub den: i64,
}

impl Frac {
    /// Well-formedness: the denominator is positive.
    pub open spec fn inv(self) -> bool {
        self.den >= 1
    }

    /// The fraction lies in `[0, 1]`.
    pub open spec fn in_unit(self) -> bool {
        0 <= self.num <= self.den
    }
}

/// `value` pulled into `[min, max]`.
pub open spec fn clamp_spec(value: int, min: int, max: int) -> int {
    if value < min {
        min
    } else if value > max {
        max
    } else {
        value
    }
}

/// Saturate `value` to the closed interval `[min, max]`.
pub fn clamp(value: i32, min: i32, max: i32) -> (r: i32)
    requires
        min <= max,
    ensures
        r == clamp_spec(value as int, min as int, max as int),
{
    let mut x = value;
    if x < min {
        x = min;
    }
    if x > max {
        x = max;
    }
    x
}

/// Numerator of the normalized fraction of `value` between `min` and `max`.
pub open spec fn inverse_lerp_num(value: int, min: int, max: int) -> int {
    if min == max {
        0
    } else {
        clamp_spec(value, min, max) - min
    }
}

/// Denominator of the normalized fraction of `value` between `min` and `max`.
pub open spec fn inverse_lerp_den(min: int, max: int) -> int {
    if min == max {
        1
    } else {
        max - min
    }
}

/// The linear-interpolation fraction of `value` between `min` and `max`,
/// clamped to `[0, 1]`: out-of-range inputs saturate rather than
/// extrapolate.  With `min == max` every input maps to zero.
pub fn inverse_lerp(value: i32, min: i32, max: i32) -> (r: Frac)
    requires
        min <= max,
    ensures
        r.num == inverse_lerp_num(value as int, min as int, max as int),
        r.den == inverse_lerp_den(min as int, max as int),
        r.inv(),
        r.in_unit(),
{
    if min == max {
        Frac { num: 0, den: 1 }
    } else {
        let clamped = clamp(value, min, max);
        Frac { num: (clamped as i64) - (min as i64), den: (max as i64) - (min as i64) }
    }
}

/// The numerator of `t`, saturated to `[0, den]`.
pub open spec fn clamp01_num(t: Frac) -> int {
    if t.num < 0 {
        0
    } else if t.num > t.den {
        t.den as int
    } else {
        t.num as int
    }
}

/// Numerator (over denominator `t.den`) of the interpolated value
/// `clamp01(t) * (max - min) + min`.
pub open spec fn lerp_num(t: Frac, min: int, max: int) -> int {
    clamp01_num(t) * (max - min) + min * (t.den as int)
}

/// `n / d` rounded to the nearest integer, halves away from zero.
pub open spec fn round_div(n: int, d: int) -> int
    recommends
        d >= 1,
{
    if n >= 0 {
        (2 * n + d) / (2 * d)
    } else {
        -((2 * (-n) + d) / (2 * d))
    }
}

/// The interpolated value `clamp01(t) * (max - min) + min`, rounded to the
/// nearest integer (halves away from zero).
pub open spec fn lerp_spec(t: Frac, min: int, max: int) -> int {
    round_div(lerp_num(t, min, max), t.den as int)
}

/// Linear interpolation between `min` and `max` by the fraction `t`,
/// saturated to `[0, 1]` first, rounded to the nearest integer.  `max` may
/// lie below `min`; the result always lies between the two bounds.
pub fn lerp(t: Frac, min: i32, max: i32) -> (r: i32)
    requires
        t.inv(),
    ensures
        r == lerp_spec(t, min as int, max as int),
        min <= max ==> min <= r <= max,
        max <= min ==> max <= r <= min,
{
    let den: i128 = t.den as i128;
    let c: i128 = if t.num < 0 {
        0
    } else if t.num > t.den {
        den
    } else {
        t.num as i128
    };
    assert(c == clamp01_num(t));
    proof {
        let ci = c as int;
        let sp = (max as int) - (min as int);
        assert(0 <= ci < 0x8000000000000000);
        assert(-0x100000000 < sp < 0x100000000);
        assert(-0x800000000000000000000000 < ci * sp < 0x800000000000000000000000)
            by (nonlinear_arith)
            requires
                0 <= ci < 0x8000000000000000,
                -0x100000000 < sp < 0x100000000,
        ;
        let mi = min as int;
        let di = den as int;
        assert(-0x400000000000000000000000 < mi * di < 0x400000000000000000000000)
            by (nonlinear_arith)
            requires
                -0x80000000 <= mi < 0x80000000,
                0 < di < 0x8000000000000000,
        ;
    }
    let n: i128 = c * ((max as i128) - (min as i128)) + (min as i128) * den;
    assert(n == lerp_num(t, min as int, max as int));
    proof {
        lemma_lerp_num_bounds(t, min as int, max as int);
    }
    let neg = n < 0;
    let m: i128 = if neg {
        -n
    } else {
        n
    };
    let q: i128 = (2 * m + den) / (2 * den);
    let r128: i128 = if neg {
        -q
    } else {
        q
    };
    proof {
        lemma_round_div_between(n as int, den as int, min as int, max as int);
        assert(r128 == round_div(n as int, den as int));
    }
    r128 as i32
}

/// The interpolation numerator lies between `min * den` and `max * den`.
proof fn lemma_lerp_num_bounds(t: Frac, min: int, max: int)
    requires
        t.inv(),
    ensures
        min <= max ==> min * (t.den as int) <= lerp_num(t, min, max) <= max * (t.den as int),
        max <= min ==> max * (t.den as int) <= lerp_num(t, min, max) <= min * (t.den as int),
{
    let d = t.den as int;
    let c = clamp01_num(t);
    assert(0 <= c <= d);
    if min <= max {
        assert(0 <= c * (max - min) <= d * (max - min)) by (nonlinear_arith)
            requires
                0 <= c <= d,
                min <= max,
        ;
        assert(lerp_num(t, min, max) <= max * d) by (nonlinear_arith)
            requires
                c * (max - min) <= d * (max - min),
                lerp_num(t, min, max) == c * (max - min) + min * d,
        ;
    } else {
        assert(d * (max - min) <= c * (max - min) <= 0) by (nonlinear_arith)
            requires
                0 <= c <= d,
                max <= min,
        ;
        assert(max * d <= lerp_num(t, min, max)) by (nonlinear_arith)
            requires
                d * (max - min) <= c * (max - min),
                lerp_num(t, min, max) == c * (max - min) + min * d,
        ;
    }
}

/// Rounding a numerator that lies between `lo * d` and `hi * d` gives an
/// integer between `lo` and `hi`.
proof fn lemma_round_div_between(n: int, d: int, lo: int, hi: int)
    requires
        d >= 1,
        lo * d <= n <= hi * d || hi * d <= n <= lo * d,
    ensures
        (if lo <= hi {
            lo <= round_div(n, d) <= hi
        } else {
            hi <= round_div(n, d) <= lo
        }),
{
    let a = if lo <= hi {
        lo
    } else {
        hi
    };
    let b = if lo <= hi {
        hi
    } else {
        lo
    };
    assert(a * d <= n <= b * d) by (nonlinear_arith)
        requires
            d >= 1,
            lo * d <= n <= hi * d || hi * d <= n <= lo * d,
            a == if lo <= hi { lo } else { hi },
            b == if lo <= hi { hi } else { lo },
    ;
    lemma_round_div_mono(n, d, a, b);
}

/// Core bound: `a <= round_div(n, d) <= b` when `a * d <= n <= b * d`.
proof fn lemma_round_div_mono(n: int, d: int, a: int, b: int)
    requires
        d >= 1,
        a <= b,
        a * d <= n,
        n <= b * d,
    ensures
        a <= round_div(n, d) <= b,
{
    if n >= 0 {
        let q = (2 * n + d) / (2 * d);
        assert(q * (2 * d) <= 2 * n + d < (q + 1) * (2 * d)) by (nonlinear_arith)
            requires
                d >= 1,
                n >= 0,
                q == (2 * n + d) / (2 * d),
        ;
        assert(q <= b) by (nonlinear_arith)
            requires
                d >= 1,
                n <= b * d,
                q * (2 * d) <= 2 * n + d,
        ;
        if a >= 1 {
            assert(q >= a) by (nonlinear_arith)
                requires
                    d >= 1,
                    a * d <= n,
                    a >= 1,
                    2 * n + d < (q + 1) * (2 * d),
            ;
        } else {
            assert(q >= 0) by (nonlinear_arith)
                requires
                    d >= 1,
                    n >= 0,
                    q == (2 * n + d) / (2 * d),
            ;
        }
    } else {
        let m = -n;
        let q = (2 * m + d) / (2 * d);
        assert(q * (2 * d) <= 2 * m + d < (q + 1) * (2 * d)) by (nonlinear_arith)
            requires
                d >= 1,
                m >= 1,
                q == (2 * m + d) / (2 * d),
        ;
        // round_div(n, d) == -q; n < 0 forces a * d <= n < 0, so a <= -1.
        assert(q <= -a) by (nonlinear_arith)
            requires
                d >= 1,
                a * d <= -m,
                q * (2 * d) <= 2 * m + d,
        ;
        if b <= -1 {
            assert(q >= -b) by (nonlinear_arith)
                requires
                    d >= 1,
                    -m <= b * d,
                    2 * m + d < (q + 1) * (2 * d),
            ;
        } else {
            assert(q >= 0) by (nonlinear_arith)
                requires
                    d >= 1,
                    m >= 1,
                    q == (2 * m + d) / (2 * d),
            ;
        }
    }
}

/// Every height between the low and high water marks normalizes into
/// `[0, 1]`; the low mark itself normalizes to `0`, and, whenever the two
/// marks differ, the high mark normalizes to `1`.  (With equal marks every
/// input normalizes to `0`, so only the `0` end of the claim applies.)
pub proof fn lemma_normalize_range(value: int, min: int, max: int)
    requires
        min <= max,
    ensures
        0 <= inverse_lerp_num(value, min, max) <= inverse_lerp_den(min, max),
        value <= min ==> inverse_lerp_num(value, min, max) == 0,
        min < max && max <= value ==> inverse_lerp_num(value, min, max) == inverse_lerp_den(
            min,
            max,
        ),
{
}

} // verus!
