//! Pixel conversion of decoded glTF images to RGBA8 for upload.

use vstd::prelude::*;

verus! {

/// Decoded RGBA8 image ready for upload.
#[derive(Clone, Debug, PartialEq, Eq)]
pub struct RgbaImage {
    pub data: Vec<u8>,
    pub width: u32,
    pub height: u32,
}

/// Pixel layouts of decoded glTF images (16-bit channels little-endian).
#[derive(Clone, Copy, Debug, PartialEq, Eq)]
pub enum PixelFormat {
    R8,
    R8G8,
    R8G8B8,
    R8G8B8A8,
    R16,
    R16G16,
    R16G16B16,
    R16G16B16A16,
    R32G32B32FLOAT,
    R32G32B32A32FLOAT,
}

/// Bytes per pixel of a layout.
pub open spec fn pixel_bytes(f: PixelFormat) -> int {
    match f {
        PixelFormat::R8 => 1,
        PixelFormat::R8G8 => 2,
        PixelFormat::R8G8B8 => 3,
        PixelFormat::R8G8B8A8 => 4,
        PixelFormat::R16 => 2,
        PixelFormat::R16G16 => 4,
        PixelFormat::R16G16B16 => 6,
        PixelFormat::R16G16B16A16 => 8,
        PixelFormat::R32G32B32FLOAT => 12,
        PixelFormat::R32G32B32A32FLOAT => 16,
    }
}

/// A layout of floating-point channels (converted by the host).
pub open spec fn is_float_format(f: PixelFormat) -> bool {
    f is R32G32B32FLOAT || f is R32G32B32A32FLOAT
}

/// Channel `c` of RGBA8 pixel `p` converted from `px`: 8-bit channels are copied, 16-bit channels
/// keep their high byte, a missing blue is 0, a missing alpha is 255 and a grey channel is
/// repeated in red, green and blue.
pub open spec fn rgba8_channel(f: PixelFormat, px: Seq<u8>, p: int, c: int) -> u8 {
    match f {
        PixelFormat::R8 => if c < 3 { px[p] } else { 255 },
        PixelFormat::R8G8 => if c < 2 { px[2 * p + c] } else if c == 2 { 0 } else { 255 },
        PixelFormat::R8G8B8 => if c < 3 { px[3 * p + c] } else { 255 },
        PixelFormat::R8G8B8A8 => px[4 * p + c],
        PixelFormat::R16 => if c < 3 { px[2 * p + 1] } else { 255 },
        PixelFormat::R16G16 => if c < 2 { px[4 * p + 2 * c + 1] } else if c == 2 { 0 } else { 255 },
        PixelFormat::R16G16B16 => if c < 3 { px[6 * p + 2 * c + 1] } else { 255 },
        PixelFormat::R16G16B16A16 => px[8 * p + 2 * c + 1],
        _ => 0,
    }
}

/// RGBA8 bytes of an image of integer channels: `R8G8B8A8` is taken as it is, the other layouts
/// give four bytes per whole pixel (see [`rgba8_channel`]).
pub open spec fn rgba8_of(f: PixelFormat, px: Seq<u8>) -> Seq<u8> {
    if f is R8G8B8A8 {
        px
    } else {
        Seq::new((4 * (px.len() as int / pixel_bytes(f))) as nat, |j: int| rgba8_channel(f, px, j / 4, j % 4))
    }
}

/// What the conversion needs: pixel data made of whole pixels (a partial last pixel cannot be
/// read), except for `R8G8B8A8`, which is copied.
pub open spec fn whole_pixels(f: PixelFormat, px: Seq<u8>) -> bool {
    f is R8G8B8A8 || px.len() as int % pixel_bytes(f) == 0
}

fn bytes_of(f: PixelFormat) -> (r: usize)
    ensures
        r == pixel_bytes(f),
{
    match f {
        PixelFormat::R8 => 1,
        PixelFormat::R8G8 => 2,
        PixelFormat::R8G8B8 => 3,
        PixelFormat::R8G8B8A8 => 4,
        PixelFormat::R16 => 2,
        PixelFormat::R16G16 => 4,
        PixelFormat::R16G16B16 => 6,
        PixelFormat::R16G16B16A16 => 8,
        PixelFormat::R32G32B32FLOAT => 12,
        PixelFormat::R32G32B32A32FLOAT => 16,
    }
}

/// Channel `c` of pixel `p`.
fn channel(f: PixelFormat, px: &[u8], p: usize, c: usize) -> (r: u8)
    requires
        !is_float_format(f),
        !(f is R8G8B8A8),
        c < 4,
        (p + 1) * pixel_bytes(f) <= px.len(),
    ensures
        r == rgba8_channel(f, px@, p as int, c as int),
{
    match f {
        PixelFormat::R8 => if c < 3 { px[p] } else { 255 },
        PixelFormat::R8G8 => if c < 2 { px[2 * p + c] } else if c == 2 { 0 } else { 255 },
        PixelFormat::R8G8B8 => if c < 3 { px[3 * p + c] } else { 255 },
        PixelFormat::R16 => if c < 3 { px[2 * p + 1] } else { 255 },
        PixelFormat::R16G16 => if c < 2 { px[4 * p + 2 * c + 1] } else if c == 2 { 0 } else { 255 },
        PixelFormat::R16G16B16 => if c < 3 { px[6 * p + 2 * c + 1] } else { 255 },
        PixelFormat::R16G16B16A16 => px[8 * p + 2 * c + 1],
        _ => 0,
    }
}

/// RGBA8 bytes of an image whose channels are integers; `None` for the floating-point layouts,
/// which the host converts.
pub fn to_rgba8(format: PixelFormat, pixels: &[u8]) -> (r: Option<Vec<u8>>)
    requires
        whole_pixels(format, pixels@),
    ensures
        is_float_format(format) <==> r is None,
        r matches Some(out) ==> out@ == rgba8_of(format, pixels@),
{
    if let PixelFormat::R32G32B32FLOAT | PixelFormat::R32G32B32A32FLOAT = format {
        return None;
    }
    if let PixelFormat::R8G8B8A8 = format {
        return Some(vstd::slice::slice_to_vec(pixels));
    }
    let b = bytes_of(format);
    let n = pixels.len() / b;
    let mut out: Vec<u8> = Vec::new();
    let mut p: usize = 0;
    while p < n
        invariant
            !is_float_format(format),
            !(format is R8G8B8A8),
            b == pixel_bytes(format),
            1 <= b <= 8,
            n == pixels@.len() as int / (b as int),
            p <= n,
            out@.len() == 4 * p,
            forall|j: int| 0 <= j < 4 * p ==> #[trigger] out@[j] == rgba8_channel(format, pixels@, j / 4, j % 4),
        decreases n - p,
    {
        assert((p + 1) * b <= pixels@.len()) by (nonlinear_arith)
            requires
                p < n,
                n == pixels@.len() as int / (b as int),
                b >= 1,
        ;
        let ghost before = out@;
        out.push(channel(format, pixels, p, 0));
        out.push(channel(format, pixels, p, 1));
        out.push(channel(format, pixels, p, 2));
        out.push(channel(format, pixels, p, 3));
        proof {
            assert forall|j: int| 0 <= j < 4 * (p + 1) implies #[trigger] out@[j] == rgba8_channel(
                format,
                pixels@,
                j / 4,
                j % 4,
            ) by {
                if j >= 4 * p {
                    assert(j / 4 == p);
                    assert(j % 4 == j - 4 * p);
                } else {
                    assert(out@[j] == before[j]);
                }
            }
        }
        p = p + 1;
    }
    assert(out@ =~= rgba8_of(format, pixels@));
    Some(out)
}

proof fn lemma_pixel_slot(len: int, b: int, p: int)
    requires
        1 <= b,
        0 <= p,
        b * p + b <= len,
    ensures
        0 <= 4 * p + 3 < 4 * (len / b),
{
    assert(p < len / b) by (nonlinear_arith)
        requires
            1 <= b,
            0 <= p,
            b * p + b <= len,
    {
        assert(b * (p + 1) <= len);
        assert(len / b >= (b * (p + 1)) / b) by {
            vstd::arithmetic::div_mod::lemma_div_is_ordered(b * (p + 1), len, b);
        }
        vstd::arithmetic::div_mod::lemma_div_multiples_vanish(p + 1, b);
    }
}

/// Each pixel of the source becomes one RGBA8 pixel, read from its own bytes: pixel `p` of a
/// layout of `k` bytes per pixel is made from bytes `k*p`..`k*p+k-1` (8-bit channels copied,
/// 16-bit channels by their high byte, a grey value repeated in red, green and blue, a missing
/// blue 0 and a missing alpha 255), and an `R8G8B8A8` image is taken as it is.
pub proof fn lemma_rgba8_pixel_from_own_bytes(f: PixelFormat, px: Seq<u8>, p: int)
    requires
        0 <= p,
    ensures
        f is R8G8B8A8 ==> rgba8_of(f, px) == px,
        f is R8 && p + 1 <= px.len() ==> rgba8_of(f, px).len() == 4 * px.len() && rgba8_of(f, px).subrange(
            4 * p,
            4 * p + 4,
        ) == seq![px[p], px[p], px[p], 255u8],
        f is R8G8 && 2 * p + 2 <= px.len() ==> rgba8_of(f, px).len() == 4 * (px.len() / 2) && rgba8_of(f, px).subrange(
            4 * p,
            4 * p + 4,
        ) == seq![px[2 * p], px[2 * p + 1], 0u8, 255u8],
        f is R8G8B8 && 3 * p + 3 <= px.len() ==> rgba8_of(f, px).len() == 4 * (px.len() / 3) && rgba8_of(f, px).subrange(
            4 * p,
            4 * p + 4,
        ) == seq![px[3 * p], px[3 * p + 1], px[3 * p + 2], 255u8],
        f is R16 && 2 * p + 2 <= px.len() ==> rgba8_of(f, px).len() == 4 * (px.len() / 2) && rgba8_of(f, px).subrange(
            4 * p,
            4 * p + 4,
        ) == seq![px[2 * p + 1], px[2 * p + 1], px[2 * p + 1], 255u8],
        f is R16G16 && 4 * p + 4 <= px.len() ==> rgba8_of(f, px).len() == 4 * (px.len() / 4) && rgba8_of(f, px).subrange(
            4 * p,
            4 * p + 4,
        ) == seq![px[4 * p + 1], px[4 * p + 3], 0u8, 255u8],
        f is R16G16B16 && 6 * p + 6 <= px.len() ==> rgba8_of(f, px).len() == 4 * (px.len() / 6) && rgba8_of(
            f,
            px,
        ).subrange(4 * p, 4 * p + 4) == seq![px[6 * p + 1], px[6 * p + 3], px[6 * p + 5], 255u8],
        f is R16G16B16A16 && 8 * p + 8 <= px.len() ==> rgba8_of(f, px).len() == 4 * (px.len() / 8) && rgba8_of(
            f,
            px,
        ).subrange(4 * p, 4 * p + 4) == seq![px[8 * p + 1], px[8 * p + 3], px[8 * p + 5], px[8 * p + 7]],
{
    if !(f is R8G8B8A8) && !is_float_format(f) {
        let b = pixel_bytes(f);
        if b * p + b <= px.len() {
            lemma_pixel_slot(px.len() as int, b, p);
            let out = rgba8_of(f, px);
            assert((4 * p) / 4 == p && (4 * p) % 4 == 0);
            assert((4 * p + 1) / 4 == p && (4 * p + 1) % 4 == 1);
            assert((4 * p + 2) / 4 == p && (4 * p + 2) % 4 == 2);
            assert((4 * p + 3) / 4 == p && (4 * p + 3) % 4 == 3);
            assert(out.subrange(4 * p, 4 * p + 4) =~= seq![
                rgba8_channel(f, px, p, 0),
                rgba8_channel(f, px, p, 1),
                rgba8_channel(f, px, p, 2),
                rgba8_channel(f, px, p, 3),
            ]);
        }
    }
    if f is R8 {
        assert(px.len() as int / 1 == px.len());
    }
}

} // verus!
