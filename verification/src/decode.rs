//! Decoding source pixel encodings into canonical binary32 sample
//! patterns, in pure integer arithmetic.
//!
//! Each decoder's contract is a value statement over the field model of
//! [`crate::binary32`]: a finite pattern `b` represents
//! `mantissa(b) * 2^(pow_exp(b) - 173)`. The half-precision and
//! shared-exponent decoders preserve their input's value exactly; the
//! 8-bit normalized decoder returns the pattern nearest to `n / 255`, with
//! the rounding error bounded in scaled integers so that the source byte
//! is recoverable — see [`lemma_unorm8_round_trip`].

use vstd::prelude::*;

use vstd::arithmetic::div_mod::{
    lemma_fundamental_div_mod, lemma_fundamental_div_mod_converse_div,
    lemma_fundamental_div_mod_converse_mod,
};
use vstd::arithmetic::power2::{
    lemma2_to64, lemma_pow2_adds, lemma_pow2_strictly_increases, lemma_pow2_unfold, pow2,
};

use crate::binary32::{bits_exp, bits_frac, bits_sign, is_finite, mantissa, pow_exp};

verus! {

/// Distance of two integers.
pub open spec fn abs_diff(a: int, b: int) -> int {
    if a >= b {
        a - b
    } else {
        b - a
    }
}

/// Sign field of a half-precision pattern.
pub open spec fn half_sign(h: u16) -> int {
    h as int / 0x8000
}

/// Exponent field of a half-precision pattern (5 bits).
pub open spec fn half_exp(h: u16) -> int {
    (h as int / 0x400) % 0x20
}

/// Fraction field of a half-precision pattern (10 bits).
pub open spec fn half_frac(h: u16) -> int {
    h as int % 0x400
}

/// Effective mantissa of a finite half-precision pattern.
pub open spec fn half_mantissa(h: u16) -> int {
    if half_exp(h) == 0 {
        half_frac(h)
    } else {
        half_frac(h) + 0x400
    }
}

/// Power-of-two weight of [`half_mantissa`], offset like
/// [`crate::binary32::pow_exp`]: a finite half-precision pattern
/// represents `half_mantissa(h) * 2^(half_pow(h) - 49)`.
pub open spec fn half_pow(h: u16) -> nat {
    if half_exp(h) == 0 {
        25
    } else {
        (half_exp(h) + 24) as nat
    }
}

/// The decoded pattern `b` carries exactly the half-precision value `h`:
/// same sign; equal scaled value when finite (the two fixed offsets differ
/// by 124); infinities map to infinities and every not-a-number pattern to
/// a not-a-number pattern.
pub open spec fn half_decodes(h: u16, b: u32) -> bool {
    &&& bits_sign(b) == half_sign(h)
    &&& if half_exp(h) < 31 {
        if half_frac(h) == 0 && half_exp(h) == 0 {
            b == half_sign(h) * 0x8000_0000
        } else {
            &&& is_finite(b)
            &&& mantissa(b) * pow2(pow_exp(b)) == half_mantissa(h) * pow2(half_pow(h) + 124)
        }
    } else {
        if half_frac(h) == 0 {
            b == half_sign(h) * 0x8000_0000 + 0x7F80_0000
        } else {
            bits_exp(b) == 255 && bits_frac(b) == half_frac(h) * 0x2000
        }
    }
}

/// The decoded pattern `b` carries exactly the shared-exponent channel
/// value `m9 * 2^(e5 - 24)`.
pub open spec fn ufloat9e5_decodes(m9: u32, e5: u32, b: u32) -> bool {
    &&& bits_sign(b) == 0
    &&& if m9 == 0 {
        b == 0
    } else {
        &&& is_finite(b)
        &&& mantissa(b) * pow2(pow_exp(b)) == m9 * pow2((e5 + 149) as nat)
    }
}

/// The decoded pattern `b` is the normalized value of the byte `n`: zero
/// for zero, and otherwise the positive normal pattern whose value, scaled
/// by the pattern's own power of two, sits within half a unit of
/// `n / 255` — the nearest representable value.
pub open spec fn unorm8_decodes(n: u8, b: u32) -> bool {
    &&& bits_sign(b) == 0
    &&& if n == 0 {
        b == 0
    } else {
        &&& 119 <= bits_exp(b) <= 127
        &&& 0x80_0000 <= mantissa(b) < 0x100_0000
        &&& abs_diff(mantissa(b) * 255, n * pow2((150 - bits_exp(b)) as nat)) <= 127
    }
}

/// Packs sign, exponent and fraction fields into one pattern.
fn pack_bits(sign: u32, e: u32, f: u32) -> (b: u32)
    requires
        sign < 2,
        e < 0x100,
        f < 0x80_0000,
    ensures
        bits_sign(b) == sign,
        bits_exp(b) == e,
        bits_frac(b) == f,
        b == sign * 0x8000_0000 + e * 0x80_0000 + f,
{
    let b = sign * 0x8000_0000 + e * 0x80_0000 + f;
    proof {
        let bi = b as int;
        assert(bi == (sign * 0x100 + e) * 0x80_0000 + f);
        lemma_fundamental_div_mod_converse_div(bi, 0x80_0000, sign * 0x100 + e, f as int);
        lemma_fundamental_div_mod_converse_mod(bi, 0x80_0000, sign * 0x100 + e, f as int);
        lemma_fundamental_div_mod_converse_mod(
            sign * 0x100 + e,
            0x100,
            sign as int,
            e as int,
        );
        assert(bi == sign * 0x8000_0000 + (e * 0x80_0000 + f));
        lemma_fundamental_div_mod_converse_div(
            bi,
            0x8000_0000,
            sign as int,
            e * 0x80_0000 + f,
        );
    }
    b
}

/// Doubles a positive mantissa into the normal range, keeping
/// `m * 2^(e - 150)` fixed: the result `(m, e)` satisfies
/// `m == m0 * 2^(e0 - e)` with `m` normalized.
fn normalize_m(m0: u32, e0: u32) -> (r: (u32, u32))
    requires
        1 <= m0 < 0x100_0000,
        25 <= e0 <= 200,
    ensures
        ({
            let (m, e) = r;
            &&& 0x80_0000 <= m < 0x100_0000
            &&& 1 <= e <= e0
            &&& e0 - e <= 23
            &&& m == m0 * pow2((e0 - e) as nat)
        }),
{
    let mut m = m0;
    let mut e = e0;
    proof {
        lemma2_to64();
        assert(m == m0 * pow2((e0 - e) as nat));
    }
    while m < 0x80_0000
        invariant
            1 <= m0 < 0x100_0000,
            25 <= e0 <= 200,
            1 <= m < 0x100_0000,
            e <= e0,
            e0 - e <= 23,
            m == m0 * pow2((e0 - e) as nat),
        decreases 0x100_0000 - m,
    {
        proof {
            lemma2_to64();
            if e0 - e == 23 {
                assert(m0 * pow2(23) >= pow2(23)) by (nonlinear_arith)
                    requires
                        m0 >= 1,
                        pow2(23) >= 0,
                ;
                assert(false);
            }
            let k = (e0 - e) as nat;
            lemma_pow2_unfold((k + 1) as nat);
            assert(2 * m == m0 * pow2((k + 1) as nat)) by (nonlinear_arith)
                requires
                    m == m0 * pow2(k),
                    pow2((k + 1) as nat) == 2 * pow2(k),
            ;
        }
        m = m * 2;
        e = e - 1;
    }
    (m, e)
}

/// Decodes one half-precision pattern to a binary32 pattern of exactly the
/// same value. Relies on nothing outside the bit layouts of the two
/// encodings.
pub fn half_to_bits(h: u16) -> (b: u32)
    ensures
        half_decodes(h, b),
{
    let hs = (h / 0x8000) as u32;
    let he = ((h / 0x400) % 0x20) as u32;
    let hf = (h % 0x400) as u32;
    if he == 31 {
        if hf == 0 {
            pack_bits(hs, 255, 0)
        } else {
            pack_bits(hs, 255, hf * 0x2000)
        }
    } else if he == 0 {
        if hf == 0 {
            pack_bits(hs, 0, 0)
        } else {
            let (m, e) = normalize_m(hf, 126);
            let b = pack_bits(hs, e, m - 0x80_0000);
            proof {
                lemma2_to64();
                assert(mantissa(b) == m);
                assert(pow_exp(b) == (e + 23) as nat);
                let k = (126 - e) as nat;
                lemma_pow2_adds(k, (e + 23) as nat);
                assert(m * pow2((e + 23) as nat) == hf * pow2(149)) by (nonlinear_arith)
                    requires
                        m == hf * pow2(k),
                        pow2(k) * pow2((e + 23) as nat) == pow2((k + e + 23) as nat),
                        k + e + 23 == 149,
                ;
                assert(half_pow(h) + 124 == 149);
            }
            b
        }
    } else {
        let m24 = (hf + 0x400) * 0x2000;
        let b = pack_bits(hs, he + 112, m24 - 0x80_0000);
        proof {
            assert(mantissa(b) == m24);
            assert(pow_exp(b) == (he + 135) as nat);
            lemma_pow2_adds(13, (he + 135) as nat);
            lemma2_to64();
            assert(m24 * pow2((he + 135) as nat) == (hf + 0x400) * pow2((he + 148) as nat))
                by (nonlinear_arith)
                requires
                    m24 == (hf + 0x400) * 0x2000,
                    0x2000 * pow2((he + 135) as nat) == pow2((13 + he + 135) as nat),
                    pow2(13) == 0x2000,
            ;
            assert(half_pow(h) + 124 == he + 148);
        }
        b
    }
}

/// Decodes one channel of a packed shared-exponent texel — a 9-bit
/// mantissa under a 5-bit exponent of bias 15 — to a binary32 pattern of
/// exactly the same value.
pub fn ufloat9e5_bits(m9: u32, e5: u32) -> (b: u32)
    requires
        m9 < 0x200,
        e5 < 0x20,
    ensures
        ufloat9e5_decodes(m9, e5, b),
{
    if m9 == 0 {
        return 0;
    }
    let (m, e) = normalize_m(m9, e5 + 126);
    let b = pack_bits(0, e, m - 0x80_0000);
    proof {
        assert(mantissa(b) == m);
        assert(pow_exp(b) == (e + 23) as nat);
        let k = (e5 + 126 - e) as nat;
        lemma_pow2_adds(k, (e + 23) as nat);
        assert(m * pow2((e + 23) as nat) == m9 * pow2((e5 + 149) as nat)) by (nonlinear_arith)
            requires
                m == m9 * pow2(k),
                pow2(k) * pow2((e + 23) as nat) == pow2((k + e + 23) as nat),
                k + e + 23 == e5 + 149,
        ;
    }
    b
}

/// Decodes one normalized byte to the binary32 pattern nearest `n / 255`.
pub fn unorm8_to_bits(n: u8) -> (b: u32)
    ensures
        unorm8_decodes(n, b),
{
    if n == 0 {
        return 0;
    }
    let mut q: u64 = (n as u64) * 0x80_0000;
    let mut e: u32 = 127;
    proof {
        lemma2_to64();
        assert(q == n * pow2((150 - e) as nat));
    }
    while q < 0x7F7F_FF81
        invariant
            1 <= n <= 255,
            119 <= e <= 127,
            q == n * pow2((150 - e) as nat),
            q <= 0xFEFF_FF00,
        decreases e,
    {
        proof {
            lemma2_to64();
            let k = (150 - e) as nat;
            assert(pow2(k) <= n * pow2(k)) by (nonlinear_arith)
                requires
                    n >= 1,
                    pow2(k) >= 0,
            ;
            if e == 119 {
                assert(pow2(31) == 0x8000_0000);
                assert(q >= 0x8000_0000);
                assert(false);
            }
            lemma_pow2_unfold((k + 1) as nat);
            assert(2 * q == n * pow2((k + 1) as nat)) by (nonlinear_arith)
                requires
                    q == n * pow2(k),
                    pow2((k + 1) as nat) == 2 * pow2(k),
            ;
            assert(n * pow2((k + 1) as nat) <= 255 * pow2((k + 1) as nat)) by (nonlinear_arith)
                requires
                    n <= 255,
                    pow2((k + 1) as nat) >= 0,
            ;
            assert(pow2((k + 1) as nat) <= pow2(31)) by {
                if k + 1 < 31 {
                    lemma_pow2_strictly_increases((k + 1) as nat, 31);
                }
            }
            assert(255 * pow2((k + 1) as nat) <= 255 * pow2(31)) by (nonlinear_arith)
                requires
                    pow2((k + 1) as nat) <= pow2(31),
            ;
            assert(255 * pow2(31) == 0xFF00_0000 * 0x80);
        }
        q = q * 2;
        e = e - 1;
    }
    let m = (2 * q + 255) / 510;
    proof {
        lemma_fundamental_div_mod(2 * q + 255, 510);
        assert(q >= 0x7F7F_FF81);
        assert(m >= 0x80_0000);
        assert(q <= 0xFEFF_FF00);
        assert(m < 0x100_0000);
    }
    let b = pack_bits(0, e, (m - 0x80_0000) as u32);
    proof {
        assert(mantissa(b) == m);
        assert(abs_diff(m * 255, q as int) <= 127) by {
            lemma_fundamental_div_mod(2 * q + 255, 510);
        }
    }
    b
}

/// Round-trip law for normalized bytes: the decoded pattern determines the
/// source byte. Any integer within half a unit of the decoded value times
/// 255 — in particular, the result of quantizing the sample back to eight
/// bits — is the source byte itself. (The half-precision and
/// shared-exponent decoders preserve values exactly, so their round trip
/// is the equality in their contracts.)
pub proof fn lemma_unorm8_round_trip(n: u8, b: u32, z: int)
    requires
        n > 0,
        unorm8_decodes(n, b),
        2 * abs_diff(z * pow2((150 - bits_exp(b)) as nat), 255 * mantissa(b)) <= pow2(
            (150 - bits_exp(b)) as nat,
        ),
    ensures
        z == n,
{
    let s = pow2((150 - bits_exp(b)) as nat);
    lemma2_to64();
    assert(s >= pow2(23)) by {
        if 150 - bits_exp(b) > 23 {
            lemma_pow2_strictly_increases(23, (150 - bits_exp(b)) as nat);
        }
    }
    assert(abs_diff(z * s, n * s) <= s / 2 + 127);
    assert(abs_diff(z * s, n * s) == abs_diff(z, n as int) * s) by (nonlinear_arith)
        requires
            s > 0,
            abs_diff(z * s, n * s) == if z * s >= n * s {
                z * s - n * s
            } else {
                n * s - z * s
            },
            abs_diff(z, n as int) == if z >= n {
                z - n
            } else {
                n - z
            },
    ;
    if z != n {
        assert(abs_diff(z, n as int) >= 1);
        assert(abs_diff(z, n as int) * s >= s) by (nonlinear_arith)
            requires
                abs_diff(z, n as int) >= 1,
                s > 0,
        ;
        assert(s > s / 2 + 127);
        assert(false);
    }
}

} // verus!
