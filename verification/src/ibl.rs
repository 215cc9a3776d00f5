//! Half-float packing of the IBL bake's texels.
//!
//! The bake computes in `f32`; each channel is stored as a half float, little-endian. The host
//! hands over each `f32` by its bit pattern (`f32::to_bits`), and this module builds the half
//! float bits and the texel bytes from it.

use vstd::prelude::*;

verus! {

/// Sign bit of an `f32` bit pattern.
pub open spec fn f32_sign(bits: u32) -> int {
    bits as int / 0x8000_0000
}

/// Biased exponent field (8 bits) of an `f32` bit pattern.
pub open spec fn f32_exponent(bits: u32) -> int {
    (bits as int / 0x80_0000) % 0x100
}

/// Mantissa field (23 bits) of an `f32` bit pattern.
pub open spec fn f32_mantissa(bits: u32) -> int {
    bits as int % 0x80_0000
}

/// Half-float bits for the `f32` with bit pattern `bits`: the same sign; the exponent moved from
/// bias 127 to bias 15; magnitudes under the normal half range become zero, those over it (with
/// infinities and NaNs) become infinity; the mantissa keeps its 10 high bits.
pub open spec fn half_bits(bits: u32) -> u16 {
    let e = f32_exponent(bits) - 112;
    let magnitude = if e <= 0 {
        0
    } else if e >= 31 {
        0x7c00
    } else {
        e * 0x400 + f32_mantissa(bits) / 0x2000
    };
    (f32_sign(bits) * 0x8000 + magnitude) as u16
}

/// Half-float conversion keeps the sign; turns magnitudes below the normal half range into a
/// signed zero and those above it into a signed infinity; and converts a value that a normal half
/// holds exactly (exponent in range, 13 low mantissa bits zero) without loss: the half's sign,
/// exponent (rebiased) and mantissa rebuild the `f32` bit pattern.
pub proof fn lemma_half_bits_fields(bits: u32)
    ensures
        ({
            let h = half_bits(bits) as int;
            let e = (bits as int / 0x80_0000) % 0x100;
            &&& h / 0x8000 == bits as int / 0x8000_0000
            &&& e <= 112 ==> h % 0x8000 == 0
            &&& e >= 143 ==> h % 0x8000 == 0x7c00
            &&& 112 < e < 143 && bits as int % 0x2000 == 0 ==> bits as int == (h / 0x8000) * 0x8000_0000 + ((h / 0x400)
                % 0x20 + 112) * 0x80_0000 + (h % 0x400) * 0x2000
        }),
{
    let b = bits as int;
    let sg = b / 0x8000_0000;
    let e = (b / 0x80_0000) % 0x100;
    let m = b % 0x80_0000;
    assert(0 <= sg <= 1);
    assert(b == sg * 0x8000_0000 + e * 0x80_0000 + m) by {
        vstd::arithmetic::div_mod::lemma_fundamental_div_mod(b, 0x80_0000);
        vstd::arithmetic::div_mod::lemma_fundamental_div_mod(b / 0x80_0000, 0x100);
        vstd::arithmetic::div_mod::lemma_div_denominator(b, 0x80_0000, 0x100);
    }
    let mag: int = if e - 112 <= 0 { 0 } else if e - 112 >= 31 { 0x7c00 } else { (e - 112) * 0x400 + m / 0x2000 };
    assert(0 <= m / 0x2000 < 0x400);
    assert(0 <= mag < 0x8000);
    let h = sg * 0x8000 + mag;
    assert(half_bits(bits) as int == h);
    assert(h / 0x8000 == sg && h % 0x8000 == mag) by {
        vstd::arithmetic::div_mod::lemma_fundamental_div_mod_converse(h, 0x8000, sg, mag);
    }
    if 112 < e < 143 && b % 0x2000 == 0 {
        let em = e - 112;
        let q = m / 0x2000;
        assert(m % 0x2000 == 0) by {
            vstd::arithmetic::div_mod::lemma_mod_mod(b, 0x2000, 0x400);
        }
        assert(m == q * 0x2000) by {
            vstd::arithmetic::div_mod::lemma_fundamental_div_mod(m, 0x2000);
        }
        assert(h == (sg * 0x20 + em) * 0x400 + q);
        assert(h / 0x400 == sg * 0x20 + em && h % 0x400 == q) by {
            vstd::arithmetic::div_mod::lemma_fundamental_div_mod_converse(h, 0x400, sg * 0x20 + em, q);
        }
        assert((sg * 0x20 + em) % 0x20 == em) by {
            vstd::arithmetic::div_mod::lemma_fundamental_div_mod_converse(sg * 0x20 + em, 0x20, sg, em);
        }
    }
}

/// Little-endian bytes of a 16-bit value.
pub open spec fn le16(h: u16) -> Seq<u8> {
    seq![(h % 0x100) as u8, (h / 0x100) as u8]
}

/// Half-float bits of the `f32` whose bit pattern is `bits` (see [`half_bits`]).
pub fn f16_from_f32_bits(bits: u32) -> (r: u16)
    ensures
        r == half_bits(bits),
{
    let sign: u32 = (bits >> 16u32) & 0x8000u32;
    let biased: u32 = (bits >> 23u32) & 0xffu32;
    let mant: u32 = bits & 0x7f_ffffu32;
    proof {
        assert(sign == (bits / 0x8000_0000) * 0x8000) by (bit_vector)
            requires
                sign == (bits >> 16u32) & 0x8000u32,
        ;
        assert(biased == (bits / 0x80_0000) % 0x100) by (bit_vector)
            requires
                biased == (bits >> 23u32) & 0xffu32,
        ;
        assert(mant == bits % 0x80_0000) by (bit_vector)
            requires
                mant == bits & 0x7f_ffffu32,
        ;
        assert(mant >> 13u32 == mant / 0x2000) by (bit_vector);
    }
    let magnitude: u32 = if biased <= 112 {
        0
    } else if biased >= 143 {
        0x7c00
    } else {
        (biased - 112) * 0x400 + (mant >> 13u32)
    };
    (sign + magnitude) as u16
}

/// Appends the little-endian bytes of `h`.
fn push_le16(buf: &mut Vec<u8>, h: u16)
    ensures
        final(buf)@ == old(buf)@ + le16(h),
{
    buf.push((h % 0x100) as u8);
    buf.push((h / 0x100) as u8);
    assert(final(buf)@ =~= old(buf)@ + le16(h));
}

/// Appends an RGBA texel of four half floats (channels given by their `f32` bit patterns).
pub fn push_rgba16f(buf: &mut Vec<u8>, r: u32, g: u32, b: u32, a: u32)
    ensures
        final(buf)@ == old(buf)@ + le16(half_bits(r)) + le16(half_bits(g)) + le16(half_bits(b)) + le16(
            half_bits(a),
        ),
{
    push_le16(buf, f16_from_f32_bits(r));
    push_le16(buf, f16_from_f32_bits(g));
    push_le16(buf, f16_from_f32_bits(b));
    push_le16(buf, f16_from_f32_bits(a));
}

/// Appends an RG texel of two half floats (channels given by their `f32` bit patterns).
pub fn push_rg16f(buf: &mut Vec<u8>, r: u32, g: u32)
    ensures
        final(buf)@ == old(buf)@ + le16(half_bits(r)) + le16(half_bits(g)),
{
    push_le16(buf, f16_from_f32_bits(r));
    push_le16(buf, f16_from_f32_bits(g));
}

} // verus!
