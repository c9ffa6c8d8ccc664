//! Bit patterns of 32-bit floats, computed in integer arithmetic.
//!
//! Setting values travel to the GPU as IEEE-754 single-precision floats, but
//! this library holds them as raw `u32` bit patterns. The one place a float
//! value is *produced* rather than passed through is the quotient of two
//! integers: a hex colour channel becomes `channel / 255`, a millisecond
//! count becomes `millis / 1000` seconds, a pixel extent becomes `extent / 1`.
//! `ratio_bits` computes the bit pattern of that quotient exactly as IEEE-754
//! division does: the numerator is scaled by powers of two until the quotient
//! lies in `[2^23, 2^24)`, then rounded to nearest, ties to even.

use vstd::arithmetic::div_mod::lemma_fundamental_div_mod;
use vstd::arithmetic::power2::{
    lemma2_to64, lemma2_to64_rest, lemma_pow2_strictly_increases, lemma_pow2_adds, pow2,
};
use vstd::prelude::*;

verus! {

/// Measure for `scale_up`: how far `num` still is below `den * 2^23`.
pub open spec fn up_gap(num: nat, den: nat) -> nat {
    if num >= den * 0x80_0000 {
        0
    } else {
        (den * 0x80_0000 - num) as nat
    }
}

/// Doubles `num` (bending the exponent upward by `s` steps) until
/// `num / den` reaches `2^23`. Returns the scaled numerator and exponent.
pub open spec fn scale_up(num: nat, den: nat, s: int) -> (nat, int)
    decreases up_gap(num, den),
{
    if num < 1 || den < 1 {
        (num, s)
    } else if num < den * 0x80_0000 {
        scale_up(num * 2, den, s + 1)
    } else {
        (num, s)
    }
}

/// Measure for `scale_down`: how far `num` still is above `den * 2^24`.
pub open spec fn down_gap(num: nat, den: nat) -> nat {
    if num < den * 0x100_0000 {
        0
    } else {
        (num - den * 0x100_0000 + 1) as nat
    }
}

/// Doubles `den` (bending the exponent downward by `s` steps) until
/// `num / den` drops below `2^24`. Returns the scaled denominator and
/// exponent.
pub open spec fn scale_down(num: nat, den: nat, s: int) -> (nat, int)
    decreases down_gap(num, den),
{
    if num < 1 || den < 1 {
        (den, s)
    } else if num >= den * 0x100_0000 {
        scale_down(num, den * 2, s - 1)
    } else {
        (den, s)
    }
}

/// `a / b` rounded to the nearest integer, ties to even.
pub open spec fn round_half_even(a: nat, b: nat) -> nat {
    let q = a / b;
    let r = a % b;
    if 2 * r > b {
        q + 1
    } else if 2 * r == b {
        q + q % 2
    } else {
        q
    }
}

/// The IEEE-754 single-precision bit pattern of `n / d`, rounded to nearest,
/// ties to even. After scaling, the quotient `num / den` lies in
/// `[2^23, 2^24)` and `n / d == (num / den) * 2^-s`, so the unbiased exponent
/// is `23 - s` and the biased exponent `150 - s`; the rounded mantissa `m`
/// carries into the exponent by itself when it reaches `2^24`. Every nonzero
/// quotient of two `u32`s lies well inside the normal range, so no overflow,
/// subnormal or NaN cases arise.
pub open spec fn spec_ratio_bits(n: nat, d: nat) -> u32 {
    if n < 1 || d < 1 {
        0u32
    } else {
        let (num, s1) = scale_up(n, d, 0);
        let (den, s) = scale_down(num, d, s1);
        let m = round_half_even(num, den);
        (((150 - s) * 0x80_0000 + m - 0x80_0000) as u32)
    }
}

/// The bit pattern of the 32-bit float nearest to `n / d` (ties to even),
/// the value float division of `n` by `d` produces.
pub fn ratio_bits(n: u32, d: u32) -> (r: u32)
    requires
        d >= 1,
    ensures
        r == spec_ratio_bits(n as nat, d as nat),
{
    if n == 0 {
        return 0;
    }
    let mut num: u64 = n as u64;
    let mut den: u64 = d as u64;
    let mut s: u64 = 0;
    proof {
        lemma2_to64();
    }
    while num < den * 0x80_0000
        invariant
            1 <= n,
            1 <= num,
            num <= 0xffff_ffff * 0x100_0000,
            den == d,
            1 <= den <= 0xffff_ffff,
            s <= 55,
            num == n * pow2(s as nat),
            scale_up(n as nat, d as nat, 0) == scale_up(num as nat, den as nat, s as int),
        decreases up_gap(num as nat, den as nat),
    {
        proof {
            lemma2_to64();
            lemma2_to64_rest();
            assert(num < 0x80_0000_0000_0000) by (nonlinear_arith)
                requires
                    num < den * 0x80_0000,
                    den <= 0xffff_ffff,
            ;
            lemma_pow2_below(n as nat, s as nat, num as nat, 55);
            lemma_pow2_adds(s as nat, 1);
            assert(n * pow2(s as nat + 1) == (n * pow2(s as nat)) * 2) by (nonlinear_arith)
                requires
                    pow2(s as nat + 1) == pow2(s as nat) * 2,
            ;
        }
        num = num * 2;
        s = s + 1;
    }
    let ghost up = scale_up(n as nat, d as nat, 0);
    proof {
        assert(up == (num as nat, s as int));
    }
    let mut t: u64 = 0;
    while num >= den * 0x100_0000
        invariant
            1 <= d,
            1 <= num <= 0xffff_ffff * 0x100_0000,
            1 <= den <= 0x2_0000_0000,
            den * 0x80_0000 <= num,
            s <= 55,
            t <= 32,
            num == up.0,
            den == d * pow2(t as nat),
            scale_down(up.0, d as nat, up.1) == scale_down(num as nat, den as nat, s - t),
        decreases down_gap(num as nat, den as nat),
    {
        proof {
            lemma2_to64();
            assert(den <= 0xffff_ffff) by (nonlinear_arith)
                requires
                    den * 0x100_0000 <= num,
                    num <= 0xffff_ffff * 0x100_0000,
        ;
            lemma_pow2_below(d as nat, t as nat, den as nat, 32);
            lemma_pow2_adds(t as nat, 1);
            assert(d * pow2(t as nat + 1) == (d * pow2(t as nat)) * 2) by (nonlinear_arith)
                requires
                    pow2(t as nat + 1) == pow2(t as nat) * 2,
            ;
        }
        den = den * 2;
        t = t + 1;
    }
    proof {
        assert(scale_down(up.0, d as nat, up.1) == (den as nat, s - t));
    }
    let q = num / den;
    let rem = num % den;
    proof {
        lemma_fundamental_div_mod(num as int, den as int);
        assert(q >= 0x80_0000) by (nonlinear_arith)
            requires
                num == den * q + rem,
                den * 0x80_0000 <= num,
                0 <= rem < den,
                1 <= den,
        ;
        assert(q < 0x100_0000) by (nonlinear_arith)
            requires
                num == den * q + rem,
                num < den * 0x100_0000,
                0 <= rem < den,
                1 <= den,
        ;
    }
    let m = if 2 * rem > den {
        q + 1
    } else if 2 * rem == den {
        q + q % 2
    } else {
        q
    };
    proof {
        assert(m == round_half_even(num as nat, den as nat));
    }
    let e: u64 = 150 - s + t;
    (e * 0x80_0000 + m - 0x80_0000) as u32
}

/// With a positive multiplier `k`, a bound on `k * 2^e` bounds the exponent:
/// if the product stays below `2^cap` the exponent stays below `cap`.
proof fn lemma_pow2_below(k: nat, e: nat, prod: nat, cap: nat)
    requires
        k >= 1,
        prod == k * pow2(e),
        prod < pow2(cap),
    ensures
        e < cap,
{
    assert(pow2(e) <= prod) by (nonlinear_arith)
        requires
            k >= 1,
            prod == k * pow2(e),
            pow2(e) >= 0,
    ;
    if e > cap {
        lemma_pow2_strictly_increases(cap, e);
        assert(false);
    } else if e == cap {
        assert(false);
    }
}

} // verus!
