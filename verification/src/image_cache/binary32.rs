//! Single-precision (IEEE 754 binary32) arithmetic on the non-negative
//! values that image downscaling works with, carried out exactly on
//! integers: a value is an integer count of a fixed unit, and rounding
//! keeps 24 significant bits, to nearest with ties to even.

use vstd::prelude::*;
use vstd::arithmetic::div_mod::lemma_div_denominator;
use vstd::arithmetic::mul::lemma_mul_upper_bound;

verus! {

/// `2^k`.
pub open spec fn two_pow(k: nat) -> nat
    decreases k,
{
    if k == 0 { 1 } else { 2 * two_pow((k - 1) as nat) }
}

/// How many halvings bring `n` below `2^24 * d`: the place of the last of
/// the 24 significant bits of `n / d`.
pub open spec fn binade(n: nat, d: nat) -> nat
    decreases n,
{
    if d == 0 || n < 0x100_0000 * d { 0 } else { 1 + binade(n / 2, d) }
}

/// `n / d` rounded to 24 significant bits, to nearest with ties to even,
/// counted in the unit of `n / d`. Where `n / d` is zero or at least
/// `2^23` units, every binary32 value near it is a whole number of units
/// and this is binary32 rounding.
pub open spec fn round24(n: nat, d: nat) -> nat {
    let k = binade(n, d);
    let u = d * two_pow(k);
    let q = n / u;
    let r = n % u;
    let kept = if 2 * r > u || (2 * r == u && q % 2 == 1) { q + 1 } else { q };
    kept * two_pow(k)
}

/// A whole number converted to binary32 (`as f32`).
pub open spec fn binary32_of(x: nat) -> nat {
    round24(x, 1)
}

/// The fixed unit of fractions: `2^-56`, small enough for every ratio of
/// two `u32` values that is not zero.
pub open spec fn frac_unit() -> nat {
    two_pow(56)
}

/// `a as f32 / b as f32`, in units of `2^-56`.
pub open spec fn binary32_ratio(a: nat, b: nat) -> nat {
    round24(binary32_of(a) * frac_unit(), binary32_of(b))
}

/// `x as f32 * scale` for a scale in units of `2^-56`, in the same units.
pub open spec fn binary32_scaled(x: nat, scale: nat) -> nat {
    round24(binary32_of(x) * scale, 1)
}

/// `round()` of a value in units of `2^-56`: to nearest, halves up.
pub open spec fn round_units(p: nat) -> nat {
    (p + two_pow(55)) / frac_unit()
}

/// A conversion to `u32` with `as`, which saturates.
pub open spec fn saturate_u32(x: nat) -> nat {
    if x > u32::MAX { u32::MAX as nat } else { x }
}

proof fn lemma_two_pow_values()
    ensures
        two_pow(55) == 0x80_0000_0000_0000,
        two_pow(56) == 0x100_0000_0000_0000,
{
    reveal_with_fuel(two_pow, 57);
}

/// [`round24`] of `n / d`; the result is at most `2n/d + 1` and at least
/// one when `n >= d`.
pub fn round24_exec(n: u128, d: u128) -> (r: u128)
    requires
        0 < d < 0x100_0000_0000,
        n < 0x4000_0000_0000_0000_0000_0000_0000_0000,
    ensures
        r == round24(n as nat, d as nat),
        r * d <= 2 * n + d,
        n >= d ==> r >= 1,
{
    let ghost mut k: nat = 0;
    let mut p2: u128 = 1;
    let mut m: u128 = n;
    while m >= 0x100_0000 * d
        invariant
            0 < d < 0x100_0000_0000,
            n < 0x4000_0000_0000_0000_0000_0000_0000_0000,
            p2 == two_pow(k),
            p2 >= 1,
            m == n / p2,
            binade(n as nat, d as nat) == k + binade(m as nat, d as nat),
            k == 0 || m >= 0x80_0000 * d,
            p2 * m <= n,
            n < p2 * (m + 1),
        decreases m,
    {
        proof {
            assert(p2 * m <= n);
            assert(p2 * 0x100_0000 <= p2 * m) by (nonlinear_arith)
                requires m >= 0x100_0000 * d, d >= 1, p2 >= 1;
            assert(p2 < 0x4000_0000_0000_0000_0000_0000_0000) by (nonlinear_arith)
                requires p2 * 0x100_0000 <= n, n < 0x4000_0000_0000_0000_0000_0000_0000_0000;
            lemma_div_denominator(n as int, p2 as int, 2);
        }
        let m2 = m / 2;
        proof {
            assert(2 * p2 * m2 <= p2 * m) by (nonlinear_arith)
                requires m2 == m / 2, p2 >= 1;
            assert(p2 * (m + 1) <= 2 * p2 * (m2 + 1)) by (nonlinear_arith)
                requires m2 == m / 2, p2 >= 1;
        }
        m = m2;
        p2 = 2 * p2;
        proof {
            k = k + 1;
        }
    }
    proof {
        if k > 0 {
            assert(p2 * 0x80_0000 * d <= n) by (nonlinear_arith)
                requires m >= 0x80_0000 * d, p2 * m <= n, p2 >= 1;
        }
        assert(p2 * d < 0x1_0000_0000_0000_0000_0000_0000_0000) by (nonlinear_arith)
            requires
                k == 0 ==> p2 == 1,
                k > 0 ==> p2 * 0x80_0000 * d <= n,
                d < 0x100_0000_0000,
                n < 0x4000_0000_0000_0000_0000_0000_0000_0000,
        ;
        assert(binade(m as nat, d as nat) == 0);
        assert(p2 < 0x80_0000_0000_0000_0000_0000_0000) by (nonlinear_arith)
            requires
                k == 0 ==> p2 == 1,
                k > 0 ==> p2 * 0x80_0000 * d <= n,
                d >= 1,
                n < 0x4000_0000_0000_0000_0000_0000_0000_0000,
        ;
        assert(d * p2 >= 1) by (nonlinear_arith)
            requires d >= 1, p2 >= 1;
    }
    let u = d * p2;
    let q = n / u;
    let rem = n % u;
    proof {
        assert(n < 0x100_0000 * u) by (nonlinear_arith)
            requires n < p2 * (m + 1), m < 0x100_0000 * d, u == d * p2, p2 >= 1;
        assert(q < 0x100_0000) by (nonlinear_arith)
            requires q == n / u, n < 0x100_0000 * u, u >= 1;
        assert(q * u <= n) by (nonlinear_arith)
            requires q == n / u, u >= 1;
    }
    let kept: u128 = if 2 * rem > u || (2 * rem == u && q % 2 == 1) { q + 1 } else { q };
    proof {
        assert(kept * p2 <= 0x100_0000 * p2) by (nonlinear_arith)
            requires kept <= 0x100_0000, p2 >= 1;
    }
    let r = kept * p2;
    proof {
        if k > 0 {
            assert(r * d <= 2 * n) by (nonlinear_arith)
                requires r == kept * p2, kept <= 0x100_0000, p2 * 0x80_0000 * d <= n, d >= 1;
        } else {
            assert(r * d <= n + d) by (nonlinear_arith)
                requires r == kept, kept <= q + 1, q * u <= n, u == d, p2 == 1;
        }
        if n >= d {
            if k > 0 {
                assert(q >= 0x80_0000) by (nonlinear_arith)
                    requires q == n / u, u == d * p2, p2 * 0x80_0000 * d <= n, u >= 1;
            } else {
                assert(q >= 1) by (nonlinear_arith)
                    requires q == n / u, u == d, n >= d, d >= 1;
            }
            assert(r >= 1) by (nonlinear_arith)
                requires r == kept * p2, kept >= q, q >= 1, p2 >= 1;
        }
    }
    r
}

/// `side as f32 * scale`, rounded and converted back to `u32` (`as u32`),
/// for a scale in units of `2^-56` made by [`binary32_ratio`] of two `u32`
/// values.
pub fn scaled_side_exec(side: u32, scale: u128) -> (r: u32)
    requires
        scale < 0x800_0000_0000_0000_0000_0000,
    ensures
        r == saturate_u32(round_units(binary32_scaled(side as nat, scale as nat))),
{
    let fw = round24_exec(side as u128, 1);
    proof {
        lemma_two_pow_values();
        assert(fw < 0x2_0000_0000);
        lemma_mul_upper_bound(fw as int, 0x2_0000_0000, scale as int, 0x800_0000_0000_0000_0000_0000);
        assert(0x2_0000_0000int * 0x800_0000_0000_0000_0000_0000int == 0x1000_0000_0000_0000_0000_0000_0000_0000int);
    }
    let p = round24_exec(fw * scale, 1);
    let rounded = (p + 0x80_0000_0000_0000) / 0x100_0000_0000_0000;
    if rounded > 0xffff_ffff { 0xffff_ffff } else { rounded as u32 }
}

/// `max_px as f32 / longest as f32` in units of `2^-56`; it is below `2^91`.
pub fn ratio_exec(max_px: u32, longest: u32) -> (r: u128)
    requires
        longest > 0,
    ensures
        r == binary32_ratio(max_px as nat, longest as nat),
        r < 0x800_0000_0000_0000_0000_0000,
{
    let a = round24_exec(max_px as u128, 1);
    let b = round24_exec(longest as u128, 1);
    proof {
        lemma_two_pow_values();
        assert(a < 0x2_0000_0000);
        assert(b >= 1);
    }
    let r = round24_exec(a * 0x100_0000_0000_0000, b);
    proof {
        assert(r <= 2 * a * 0x100_0000_0000_0000 + 1) by (nonlinear_arith)
            requires r * b <= 2 * (a * 0x100_0000_0000_0000) + b, b >= 1;
    }
    r
}

} // verus!
