//! Exact rounded arithmetic for the value codecs: division and square
//! root rounded to the nearest integer, halves rounded up.

use vstd::prelude::*;
use vstd::arithmetic::div_mod::{
    lemma_div_is_ordered, lemma_div_pos_is_pos, lemma_fundamental_div_mod,
    lemma_fundamental_div_mod_converse,
};

verus! {

/// `a / b` rounded to the nearest integer, halves up, for `a >= 0` and
/// `b >= 1`.
pub open spec fn spec_round_div(a: int, b: int) -> int {
    (2 * a + b) / (2 * b)
}

/// The rounded quotient of `a <= c * b` by `b` stays within `[0, c]`.
pub proof fn lemma_round_div_bounds(a: int, b: int, c: int)
    requires
        0 <= a,
        1 <= b,
        0 <= c,
        a <= c * b,
    ensures
        0 <= spec_round_div(a, b) <= c,
{
    lemma_div_pos_is_pos(2 * a + b, 2 * b);
    assert(2 * a + b <= c * (2 * b) + b) by (nonlinear_arith)
        requires
            a <= c * b,
    ;
    lemma_fundamental_div_mod_converse(c * (2 * b) + b, 2 * b, c, b);
    lemma_div_is_ordered(2 * a + b, c * (2 * b) + b, 2 * b);
}

/// Scaled back by `b`, the rounded quotient lands within half of `b` of
/// the original numerator.
pub proof fn lemma_round_div_error(a: int, b: int)
    requires
        0 <= a,
        1 <= b,
    ensures
        -b < 2 * (spec_round_div(a, b) * b) - 2 * a <= b,
{
    let r = spec_round_div(a, b);
    lemma_fundamental_div_mod(2 * a + b, 2 * b);
    let m = (2 * a + b) % (2 * b);
    vstd::arithmetic::div_mod::lemma_mod_bound(2 * a + b, 2 * b);
    assert(2 * a + b == 2 * b * r + m);
    assert(2 * (r * b) == 2 * b * r) by (nonlinear_arith);
}

/// `a / b` rounded to the nearest integer, halves up.
pub fn round_div(a: u128, b: u128) -> (r: u128)
    requires
        1 <= b,
        2 * a + b <= u128::MAX,
        2 * b <= u128::MAX,
    ensures
        r == spec_round_div(a as int, b as int),
{
    (2 * a + b) / (2 * b)
}

/// `d` is `sqrt(t / m)` rounded to the nearest integer, halves up.
pub open spec fn is_sqrt_round(d: int, t: int, m: int) -> bool {
    &&& 0 <= d
    &&& (d == 0 ==> 4 * t < m)
    &&& (d > 0 ==> (2 * d - 1) * (2 * d - 1) * m <= 4 * t && 4 * t < (2 * d + 1) * (2 * d + 1)
        * m)
}

/// At most one integer is the rounded square root of `t / m`.
pub proof fn lemma_sqrt_round_unique(d1: int, d2: int, t: int, m: int)
    requires
        0 <= t,
        1 <= m,
        is_sqrt_round(d1, t, m),
        is_sqrt_round(d2, t, m),
    ensures
        d1 == d2,
{
    if d1 < d2 {
        assert(false) by (nonlinear_arith)
            requires
                0 <= d1 < d2,
                1 <= m,
                0 <= t,
                d1 == 0 ==> 4 * t < m,
                d1 > 0 ==> 4 * t < (2 * d1 + 1) * (2 * d1 + 1) * m,
                (2 * d2 - 1) * (2 * d2 - 1) * m <= 4 * t,
        ;
    }
    if d2 < d1 {
        assert(false) by (nonlinear_arith)
            requires
                0 <= d2 < d1,
                1 <= m,
                0 <= t,
                d2 == 0 ==> 4 * t < m,
                d2 > 0 ==> 4 * t < (2 * d2 + 1) * (2 * d2 + 1) * m,
                (2 * d1 - 1) * (2 * d1 - 1) * m <= 4 * t,
        ;
    }
}

/// `sqrt(t / m)` rounded to the nearest integer, halves up.
pub open spec fn spec_sqrt_round(t: int, m: int) -> int {
    choose|d: int| is_sqrt_round(d, t, m)
}

/// Largest integer whose square does not exceed `t`.
pub fn isqrt(t: u128) -> (r: u128)
    ensures
        r * r <= t,
        t < (r + 1) * (r + 1),
        r < 0x1_0000_0000_0000_0000u128,
{
    let mut lo: u128 = 0;
    let mut hi: u128 = if t < 0xffff_ffff_ffff_ffffu128 {
        t + 1
    } else {
        0x1_0000_0000_0000_0000u128
    };
    proof {
        assert(t < hi * hi) by (nonlinear_arith)
            requires
                (hi == t + 1 && 0 <= t) || (hi == 0x1_0000_0000_0000_0000 && t
                    < 0x1_0000_0000_0000_0000_0000_0000_0000_0000),
        ;
    }
    while hi - lo > 1
        invariant
            lo < hi,
            hi <= 0x1_0000_0000_0000_0000u128,
            lo * lo <= t,
            t < hi * hi,
        decreases hi - lo,
    {
        let mid = lo + (hi - lo) / 2;
        proof {
            assert(mid * mid <= u128::MAX) by (nonlinear_arith)
                requires
                    mid < hi <= 0x1_0000_0000_0000_0000u128,
                    0 <= mid,
            ;
        }
        if mid * mid <= t {
            lo = mid;
        } else {
            hi = mid;
        }
    }
    lo
}

/// `sqrt(t / m)` rounded to the nearest integer, halves up.
pub fn sqrt_round(t: u128, m: u128) -> (r: u128)
    requires
        1 <= m,
        m <= 0x1_0000_0000_0000_0000u128,
        t <= 0x400_0000_0000_0000_0000_0000_0000_0000u128,
    ensures
        is_sqrt_round(r as int, t as int, m as int),
        r == spec_sqrt_round(t as int, m as int),
{
    let q = t / m;
    let s = isqrt(q);
    proof {
        lemma_fundamental_div_mod(t as int, m as int);
        // s is also the floor square root of the exact ratio t / m
        assert(s * s * m <= t) by (nonlinear_arith)
            requires
                s * s <= t as int / m as int,
                t == m * (t as int / m as int) + t as int % m as int,
                0 <= t as int % m as int,
                1 <= m,
                0 <= s,
        ;
        assert(t < (s + 1) * (s + 1) * m) by (nonlinear_arith)
            requires
                (t as int / m as int) < (s + 1) * (s + 1),
                t == m * (t as int / m as int) + t as int % m as int,
                (t as int % m as int) < m,
                1 <= m,
                0 <= s,
        ;
        // bound the candidate threshold so its computation cannot overflow
        if s == 0 {
            assert((2 * s + 1) * (2 * s + 1) * m <= 8 * t + m) by (nonlinear_arith)
                requires
                    s == 0,
                    0 <= t,
                    1 <= m,
            ;
        } else {
            assert((2 * s + 1) * (2 * s + 1) * m <= 8 * t + m) by (nonlinear_arith)
                requires
                    s * s * m <= t,
                    1 <= s,
                    1 <= m,
            ;
        }
        assert((2 * s + 1) * (2 * s + 1) <= (2 * s + 1) * (2 * s + 1) * m) by (nonlinear_arith)
            requires
                1 <= m,
                0 <= s,
        ;
    }
    let c = 2 * s + 1;
    let threshold = c * c * m;
    if 4 * t >= threshold {
        proof {
            assert(is_sqrt_round(s as int + 1, t as int, m as int)) by (nonlinear_arith)
                requires
                    (2 * s + 1) * (2 * s + 1) * m <= 4 * t,
                    t < (s + 1) * (s + 1) * m,
                    0 <= s,
                    1 <= m,
            ;
            assert(exists|d: int| is_sqrt_round(d, t as int, m as int));
            assert(is_sqrt_round(spec_sqrt_round(t as int, m as int), t as int, m as int));
            lemma_sqrt_round_unique(
                s as int + 1,
                spec_sqrt_round(t as int, m as int),
                t as int,
                m as int,
            );
        }
        s + 1
    } else {
        proof {
            assert(is_sqrt_round(s as int, t as int, m as int)) by (nonlinear_arith)
                requires
                    4 * t < (2 * s + 1) * (2 * s + 1) * m,
                    s * s * m <= t,
                    0 <= s,
                    1 <= m,
            ;
            assert(exists|d: int| is_sqrt_round(d, t as int, m as int));
            assert(is_sqrt_round(spec_sqrt_round(t as int, m as int), t as int, m as int));
            lemma_sqrt_round_unique(
                s as int,
                spec_sqrt_round(t as int, m as int),
                t as int,
                m as int,
            );
        }
        s
    }
}

/// An optional nonlinear remap of the normalized coordinate of a value
/// codec, applied before quantization or on the way back.
#[derive(Clone, Copy, Debug)]
pub enum Remap {
    /// The coordinate is used as it is
    Identity,
    /// The coordinate is squared
    Square,
    /// The square root of the coordinate is taken
    Sqrt,
}

/// The quantization step of a value codec: the offset `d` within a range
/// of width `range`, remapped on the unit interval and scaled to the
/// integer grid `0 ..= m`, rounded to the nearest point.
pub open spec fn spec_normalize(d: int, range: int, m: int, remap: Remap) -> int {
    match remap {
        Remap::Identity => spec_round_div(d * m, range),
        Remap::Square => spec_round_div(d * d * m, range * range),
        Remap::Sqrt => spec_sqrt_round(m * m * d, range),
    }
}

/// The reverse of quantization: grid point `n` of `0 ..= m`, remapped on
/// the unit interval and scaled back to an offset within the range,
/// rounded to the nearest integer.
pub open spec fn spec_denormalize(n: int, range: int, m: int, remap: Remap) -> int {
    match remap {
        Remap::Identity => spec_round_div(range * n, m),
        Remap::Square => spec_round_div(range * n * n, m * m),
        Remap::Sqrt => spec_sqrt_round(range * range * n, m),
    }
}

/// A rounded square root of `t / m` with `t <= c * c * m` does not
/// exceed `c`.
pub proof fn lemma_sqrt_round_bound(d: int, t: int, m: int, c: int)
    requires
        is_sqrt_round(d, t, m),
        0 <= t,
        1 <= m,
        0 <= c,
        t <= c * c * m,
    ensures
        0 <= d <= c,
{
    if d > c {
        assert(false) by (nonlinear_arith)
            requires
                c < d,
                0 <= c,
                1 <= m,
                t <= c * c * m,
                (2 * d - 1) * (2 * d - 1) * m <= 4 * t,
        ;
    }
}

/// Quantization of an in-range offset, as `normalize` computes it.
pub fn apply_normalize(d: i64, range: i64, m: usize, remap: Remap) -> (r: usize)
    requires
        0 <= d <= range,
        1 <= range <= 0x2_0000_0000_0000i64,
        1 <= m <= 0x1000000,
    ensures
        r == spec_normalize(d as int, range as int, m as int, remap),
        r <= m,
{
    let du = d as u128;
    let ru = range as u128;
    let mu = m as u128;
    match remap {
        Remap::Identity => {
            proof {
                assert(0 <= d * m <= m * range <= 0x2_0000_0000_0000_0000_0000i128)
                    by (nonlinear_arith)
                    requires
                        0 <= d <= range <= 0x2_0000_0000_0000i64,
                        0 <= m <= 0x1000000,
                ;
                lemma_round_div_bounds(d * m, range as int, m as int);
            }
            let r = round_div(du * mu, ru);
            r as usize
        },
        Remap::Square => {
            proof {
                assert(0 <= d * d * m <= m * (range * range) && d * d * m
                    <= 0x400_0000_0000_0000_0000_0000_0000_0000i128 && range * range
                    <= 0x4_0000_0000_0000_0000_0000_0000i128 && 1 <= range * range && d * d
                    <= 0x4_0000_0000_0000_0000_0000_0000i128) by (nonlinear_arith)
                    requires
                        0 <= d <= range <= 0x2_0000_0000_0000i64,
                        1 <= range,
                        0 <= m <= 0x1000000,
                ;
                lemma_round_div_bounds(d * d * m, range as int * range, m as int);
            }
            let r = round_div(du * du * mu, ru * ru);
            r as usize
        },
        Remap::Sqrt => {
            proof {
                assert(0 <= m * m * d && m * m * d
                    <= 0x400_0000_0000_0000_0000_0000_0000_0000i128 && m * m * d <= m * m
                    * range && m * m <= 0x1_0000_0000_0000i128) by (nonlinear_arith)
                    requires
                        0 <= d <= range <= 0x2_0000_0000_0000i64,
                        0 <= m <= 0x1000000,
                ;
            }
            let r = sqrt_round(mu * mu * du, ru);
            proof {
                lemma_sqrt_round_bound(r as int, m as int * m * d, range as int, m as int);
            }
            r as usize
        },
    }
}

/// The reverse of quantization, as `reverse` computes it.
pub fn apply_denormalize(n: usize, range: i64, m: usize, remap: Remap) -> (r: i64)
    requires
        n <= m,
        1 <= range <= 0x2_0000_0000_0000i64,
        1 <= m <= 0x1000000,
    ensures
        r == spec_denormalize(n as int, range as int, m as int, remap),
        0 <= r <= range,
{
    let nu = n as u128;
    let ru = range as u128;
    let mu = m as u128;
    match remap {
        Remap::Identity => {
            proof {
                assert(0 <= range * n <= range * m <= 0x2_0000_0000_0000_0000_0000i128)
                    by (nonlinear_arith)
                    requires
                        0 <= n <= m <= 0x1000000,
                        0 <= range <= 0x2_0000_0000_0000i64,
                ;
                lemma_round_div_bounds(range * n, m as int, range as int);
            }
            let r = round_div(ru * nu, mu);
            r as i64
        },
        Remap::Square => {
            proof {
                assert(0 <= range * n * n <= range * (m * m) && range * n * n
                    <= 0x400_0000_0000_0000_0000_0000_0000_0000i128 && m * m
                    <= 0x1_0000_0000_0000i128 && 1 <= m * m && range * n
                    <= 0x2_0000_0000_0000_0000_0000i128) by (nonlinear_arith)
                    requires
                        0 <= n <= m <= 0x1000000,
                        1 <= m,
                        0 <= range <= 0x2_0000_0000_0000i64,
                ;
                lemma_round_div_bounds(range as int * n * n, m as int * m, range as int);
            }
            let r = round_div(ru * nu * nu, mu * mu);
            r as i64
        },
        Remap::Sqrt => {
            proof {
                assert(0 <= range * range * n && range * range * n <= range * range * m && range
                    * range * n <= 0x400_0000_0000_0000_0000_0000_0000_0000i128 && range * range
                    <= 0x4_0000_0000_0000_0000_0000_0000i128) by (nonlinear_arith)
                    requires
                        0 <= n <= m <= 0x1000000,
                        1 <= range <= 0x2_0000_0000_0000i64,
                ;
            }
            let r = sqrt_round(ru * ru * nu, mu);
            proof {
                lemma_sqrt_round_bound(r as int, range as int * range * n, m as int, range as int);
            }
            r as i64
        },
    }
}

/// Quantizing an in-range offset and scaling it back lands within half a
/// quantization step plus half a unit of the original offset: the round
/// trip of the linear value codec is exact up to its grid.
pub proof fn lemma_quantize_round_trip(d: int, range: int, m: int)
    requires
        0 <= d <= range,
        1 <= range,
        1 <= m,
    ensures
        0 <= spec_normalize(d, range, m, Remap::Identity) <= m,
        -(range + m) <= 2 * m * (spec_denormalize(
            spec_normalize(d, range, m, Remap::Identity),
            range,
            m,
            Remap::Identity,
        ) - d) <= range + m,
{
    let n = spec_normalize(d, range, m, Remap::Identity);
    let y = spec_denormalize(n, range, m, Remap::Identity);
    assert(0 <= d * m <= m * range) by (nonlinear_arith)
        requires
            0 <= d <= range,
            1 <= m,
    ;
    lemma_round_div_bounds(d * m, range, m);
    lemma_round_div_error(d * m, range);
    assert(0 <= range * n <= range * m) by (nonlinear_arith)
        requires
            0 <= n <= m,
            1 <= range,
    ;
    lemma_round_div_error(range * n, m);
    // combine the two rounding errors, rescaling the first by m and the
    // second by nothing: 2|y m - d m| <= range + m
    assert(-(range) < 2 * (n * range) - 2 * (d * m) <= range);
    assert(-(m) < 2 * (y * m) - 2 * (range * n) <= m);
    assert(n * range == range * n && y * m == m * y && d * m == m * d) by (nonlinear_arith);
    assert(2 * m * (y - d) == 2 * (m * y) - 2 * (m * d)) by (nonlinear_arith);
}


} // verus!
