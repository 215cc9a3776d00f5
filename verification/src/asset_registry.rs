//! CPU side of texture upload: the per-material texture handles, colour bleeding under transparent
//! texels, and the RGBA8 mip chain (box filter, optionally weighted by alpha).

use vstd::prelude::*;

use vstd::arithmetic::div_mod::{lemma_fundamental_div_mod, lemma_mod_bound};

verus! {

/// Optional texture handles of a material; `None` falls back to the registry's 1×1 defaults.
#[derive(Debug, Default, Clone, Copy, PartialEq, Eq)]
pub struct MaterialTextures {
    pub albedo: Option<u32>,
    pub normal: Option<u32>,
    pub metallic_roughness: Option<u32>,
    pub emissive: Option<u32>,
    /// `KHR_materials_anisotropy` map (linear); +X / strength 1 when `None`.
    pub anisotropy: Option<u32>,
    /// `KHR_materials_clearcoat` intensity (R); white when `None`.
    pub clearcoat: Option<u32>,
    /// `KHR_materials_clearcoat` roughness (G); G = 1 when `None`.
    pub clearcoat_roughness: Option<u32>,
    /// KHR `transmissionTexture` (R).
    pub transmission: Option<u32>,
    /// KHR `specularTexture` (A).
    pub specular: Option<u32>,
    /// KHR `specularColorTexture` (sRGB).
    pub specular_color: Option<u32>,
    /// KHR `thicknessTexture` (G).
    pub thickness: Option<u32>,
    /// glTF `occlusionTexture` (R, linear).
    pub occlusion: Option<u32>,
}

// ───────────────────────────── colour bleeding ─────────────────────────────

/// Texels whose alpha is at most this value take their colour from their neighbours.
pub const ALPHA_BLEED_THRESHOLD: u8 = 8;

/// Pixel `p` of the RGBA8 bytes `d` is opaque enough to lend its colour.
pub open spec fn opaque_px(d: Seq<u8>, p: int) -> bool {
    d[4 * p + 3] > ALPHA_BLEED_THRESHOLD
}

/// Some pixel of `d` (whole 4-byte groups) has alpha at most the threshold.
pub open spec fn has_transparent(d: Seq<u8>) -> bool {
    exists|p: int| 0 <= p < d.len() / 4 && #[trigger] d[4 * p + 3] <= ALPHA_BLEED_THRESHOLD
}

/// The neighbour at offset (`ox`, `oy`) of pixel (`x`, `y`) lies in the `w`×`h` image and is opaque.
pub open spec fn lends(d: Seq<u8>, w: int, h: int, x: int, y: int, ox: int, oy: int) -> bool {
    &&& 0 <= x + ox < w
    &&& 0 <= y + oy < h
    &&& opaque_px(d, (y + oy) * w + (x + ox))
}

/// Channel `c` of that neighbour when it lends its colour, else 0.
pub open spec fn lent(d: Seq<u8>, w: int, h: int, x: int, y: int, ox: int, oy: int, c: int) -> int {
    if lends(d, w, h, x, y, ox, oy) {
        d[4 * ((y + oy) * w + (x + ox)) + c] as int
    } else {
        0
    }
}

/// 1 when that neighbour lends its colour, else 0.
pub open spec fn lender(d: Seq<u8>, w: int, h: int, x: int, y: int, ox: int, oy: int) -> int {
    if lends(d, w, h, x, y, ox, oy) {
        1
    } else {
        0
    }
}

/// Sum of channel `c` over the opaque pixels among the eight neighbours of (`x`, `y`).
pub open spec fn lent_sum(d: Seq<u8>, w: int, h: int, x: int, y: int, c: int) -> int {
    lent(d, w, h, x, y, -1, -1, c) + lent(d, w, h, x, y, 0, -1, c) + lent(d, w, h, x, y, 1, -1, c) + lent(
        d,
        w,
        h,
        x,
        y,
        -1,
        0,
        c,
    ) + lent(d, w, h, x, y, 1, 0, c) + lent(d, w, h, x, y, -1, 1, c) + lent(d, w, h, x, y, 0, 1, c) + lent(
        d,
        w,
        h,
        x,
        y,
        1,
        1,
        c,
    )
}

/// Number of opaque pixels among the eight neighbours of (`x`, `y`).
pub open spec fn lender_count(d: Seq<u8>, w: int, h: int, x: int, y: int) -> int {
    lender(d, w, h, x, y, -1, -1) + lender(d, w, h, x, y, 0, -1) + lender(d, w, h, x, y, 1, -1) + lender(
        d,
        w,
        h,
        x,
        y,
        -1,
        0,
    ) + lender(d, w, h, x, y, 1, 0) + lender(d, w, h, x, y, -1, 1) + lender(d, w, h, x, y, 0, 1) + lender(
        d,
        w,
        h,
        x,
        y,
        1,
        1,
    )
}

/// Byte `j` after bleeding: a colour channel of a transparent pixel of the image that has at least
/// one opaque neighbour becomes the mean of that channel over its opaque neighbours (rounded
/// down); every other byte is kept.
pub open spec fn bled_byte(d: Seq<u8>, w: int, h: int, j: int) -> u8 {
    let p = j / 4;
    let c = j % 4;
    let x = p % w;
    let y = p / w;
    if j < 4 * (w * h) && c < 3 && !opaque_px(d, p) && lender_count(d, w, h, x, y) > 0 {
        (lent_sum(d, w, h, x, y, c) / lender_count(d, w, h, x, y)) as u8
    } else {
        d[j]
    }
}

/// The RGBA8 bytes `d` of a `w`×`h` image after bleeding opaque colours into transparent texels.
pub open spec fn bled(d: Seq<u8>, w: int, h: int) -> Seq<u8> {
    Seq::new(d.len(), |j: int| bled_byte(d, w, h, j))
}

/// What bleeding needs: the image fits in `d` and its byte size in a `u32`; a buffer with a
/// transparent texel has a non-empty extent (its largest side has a base-2 logarithm).
pub open spec fn bleed_admissible(d: Seq<u8>, w: u32, h: u32) -> bool {
    &&& 4 * (w * h) <= d.len()
    &&& 4 * (w * h) <= u32::MAX
    &&& has_transparent(d) ==> (w > 0 || h > 0)
}

proof fn lemma_pixel_in_image(w: int, h: int, x: int, y: int)
    requires
        0 <= x < w,
        0 <= y < h,
    ensures
        0 <= y * w + x < w * h,
        4 * (y * w + x) + 3 < 4 * (w * h),
{
    assert(y * w + x < w * h) by (nonlinear_arith)
        requires
            0 <= x < w,
            0 <= y < h,
    ;
    assert(0 <= y * w) by (nonlinear_arith)
        requires
            0 <= y,
            0 <= w,
    ;
}

proof fn lemma_pixel_coords(p: int, w: int, h: int)
    requires
        0 <= p < w * h,
        0 < w,
    ensures
        p == (p / w) * w + p % w,
        0 <= p % w < w,
        0 <= p / w < h,
{
    lemma_fundamental_div_mod(p, w);
    lemma_mod_bound(p, w);
    assert((p / w) * w == w * (p / w)) by (nonlinear_arith);
    assert(0 <= p / w < h) by (nonlinear_arith)
        requires
            0 <= p < w * h,
            0 < w,
            p == w * (p / w) + p % w,
            0 <= p % w < w,
    ;
}

/// Bleeding leaves the alpha channel, the bytes outside the image and every opaque pixel as they are.
proof fn lemma_bled_keeps(d: Seq<u8>, w: int, h: int, q: int, c: int)
    requires
        0 <= q,
        4 * q + 3 < d.len(),
        0 <= c < 4,
        c == 3 || opaque_px(d, q),
    ensures
        bled(d, w, h)[4 * q + c] == d[4 * q + c],
{
    assert((4 * q + c) / 4 == q);
    assert((4 * q + c) % 4 == c);
}

/// One neighbour lends the same colour before and after bleeding.
proof fn lemma_lent_stable(d: Seq<u8>, w: int, h: int, x: int, y: int, ox: int, oy: int, c: int)
    requires
        4 * (w * h) <= d.len(),
        0 <= c < 3,
    ensures
        lends(bled(d, w, h), w, h, x, y, ox, oy) == lends(d, w, h, x, y, ox, oy),
        lent(bled(d, w, h), w, h, x, y, ox, oy, c) == lent(d, w, h, x, y, ox, oy, c),
{
    if 0 <= x + ox < w && 0 <= y + oy < h {
        let q = (y + oy) * w + (x + ox);
        lemma_pixel_in_image(w, h, x + ox, y + oy);
        lemma_bled_keeps(d, w, h, q, 3);
        if opaque_px(d, q) {
            lemma_bled_keeps(d, w, h, q, c);
        }
    }
}

/// Bleeding twice gives what bleeding once gives: bleeding reads only opaque pixels and alpha,
/// which it does not change.
pub proof fn lemma_bleed_idempotent(d: Seq<u8>, w: int, h: int)
    requires
        4 * (w * h) <= d.len(),
    ensures
        bled(bled(d, w, h), w, h) == bled(d, w, h),
{
    let b = bled(d, w, h);
    assert forall|j: int| 0 <= j < d.len() implies #[trigger] bled(b, w, h)[j] == b[j] by {
        let p = j / 4;
        let c = j % 4;
        let x = p % w;
        let y = p / w;
        if j < 4 * (w * h) && c < 3 {
            lemma_bled_keeps(d, w, h, p, 3);
            if !opaque_px(d, p) {
                lemma_lent_stable(d, w, h, x, y, -1, -1, c);
                lemma_lent_stable(d, w, h, x, y, 0, -1, c);
                lemma_lent_stable(d, w, h, x, y, 1, -1, c);
                lemma_lent_stable(d, w, h, x, y, -1, 0, c);
                lemma_lent_stable(d, w, h, x, y, 1, 0, c);
                lemma_lent_stable(d, w, h, x, y, -1, 1, c);
                lemma_lent_stable(d, w, h, x, y, 0, 1, c);
                lemma_lent_stable(d, w, h, x, y, 1, 1, c);
            }
        }
    }
    assert(bled(b, w, h) =~= b);
}

/// Without a transparent texel, bleeding changes nothing.
proof fn lemma_bled_opaque(d: Seq<u8>, w: int, h: int)
    requires
        4 * (w * h) <= d.len(),
        !has_transparent(d),
    ensures
        bled(d, w, h) == d,
{
    assert forall|j: int| 0 <= j < d.len() implies #[trigger] bled(d, w, h)[j] == d[j] by {
        let p = j / 4;
        if j < 4 * (w * h) {
            assert(d[4 * p + 3] > ALPHA_BLEED_THRESHOLD);
        }
    }
    assert(bled(d, w, h) =~= d);
}

/// Index of the neighbour at offset (`dx - 1`, `dy - 1`) of (`x`, `y`) when it lends its colour.
fn lender_at(d: &Vec<u8>, w: u32, h: u32, x: u32, y: u32, dx: u32, dy: u32) -> (r: Option<usize>)
    requires
        dx <= 2,
        dy <= 2,
        x < w,
        y < h,
        4 * (w * h) <= d@.len(),
        4 * (w * h) <= u32::MAX,
    ensures
        r is Some <==> lends(d@, w as int, h as int, x as int, y as int, dx - 1, dy - 1),
        r matches Some(i) ==> i == 4 * ((y + dy - 1) * w + (x + dx - 1)) && i + 3 < d@.len(),
{
    if (dx == 0 && x == 0) || (dy == 0 && y == 0) {
        return None;
    }
    assert(w <= u32::MAX / 4 && h <= u32::MAX / 4) by (nonlinear_arith)
        requires
            4 * (w * h) <= u32::MAX,
            x < w,
            y < h,
    ;
    let sx = x + dx - 1;
    let sy = y + dy - 1;
    if sx >= w || sy >= h {
        return None;
    }
    proof {
        lemma_pixel_in_image(w as int, h as int, sx as int, sy as int);
    }
    let ni = ((sy * w + sx) * 4) as usize;
    if d[ni + 3] <= ALPHA_BLEED_THRESHOLD {
        None
    } else {
        Some(ni)
    }
}

/// Adds the neighbour at offset (`dx - 1`, `dy - 1`) to the running sums when it lends its colour.
fn add_lender(
    d: &Vec<u8>,
    w: u32,
    h: u32,
    x: u32,
    y: u32,
    dx: u32,
    dy: u32,
    red: &mut u32,
    green: &mut u32,
    blue: &mut u32,
    count: &mut u32,
)
    requires
        dx <= 2,
        dy <= 2,
        x < w,
        y < h,
        4 * (w * h) <= d@.len(),
        4 * (w * h) <= u32::MAX,
        *old(count) <= 8,
        *old(red) <= 8 * 255,
        *old(green) <= 8 * 255,
        *old(blue) <= 8 * 255,
    ensures
        *final(count) == *old(count) + lender(d@, w as int, h as int, x as int, y as int, dx - 1, dy - 1),
        *final(red) == *old(red) + lent(d@, w as int, h as int, x as int, y as int, dx - 1, dy - 1, 0),
        *final(green) == *old(green) + lent(d@, w as int, h as int, x as int, y as int, dx - 1, dy - 1, 1),
        *final(blue) == *old(blue) + lent(d@, w as int, h as int, x as int, y as int, dx - 1, dy - 1, 2),
{
    match lender_at(d, w, h, x, y, dx, dy) {
        Some(ni) => {
            *red = *red + d[ni] as u32;
            *green = *green + d[ni + 1] as u32;
            *blue = *blue + d[ni + 2] as u32;
            *count = *count + 1;
        },
        None => {},
    }
}

/// Whether some whole 4-byte group of `d` has alpha at most the threshold.
fn any_transparent(d: &Vec<u8>) -> (r: bool)
    ensures
        r == has_transparent(d@),
{
    let mut k: usize = 0;
    while k + 3 < d.len()
        invariant
            k % 4 == 0,
            k <= d@.len() + 3,
            forall|p: int| 0 <= p < k / 4 ==> #[trigger] d@[4 * p + 3] > ALPHA_BLEED_THRESHOLD,
        decreases d.len() - k,
    {
        if d[k + 3] <= ALPHA_BLEED_THRESHOLD {
            assert(d@[4 * (k / 4) + 3] <= ALPHA_BLEED_THRESHOLD);
            return true;
        }
        k = k + 4;
    }
    assert forall|p: int| 0 <= p < d@.len() / 4 implies #[trigger] d@[4 * p + 3] > ALPHA_BLEED_THRESHOLD by {
        assert(p < k / 4);
    }
    false
}

/// One bleeding pass over `prev`, written into `out` (a copy of `prev`); returns whether some
/// transparent texel had no opaque neighbour.
fn bleed_pass(prev: &Vec<u8>, out: &mut Vec<u8>, w: u32, h: u32) -> (unresolved: bool)
    requires
        old(out)@ == prev@,
        4 * (w * h) <= prev@.len(),
        4 * (w * h) <= u32::MAX,
    ensures
        final(out)@ == bled(prev@, w as int, h as int),
{
    let ghost d = prev@;
    let n = w * h;
    let mut unresolved = false;
    let mut p: u32 = 0;
    while p < n
        invariant
            d == prev@,
            n == w * h,
            4 * (w * h) <= d.len(),
            4 * (w * h) <= u32::MAX,
            p <= n,
            out@.len() == d.len(),
            forall|j: int| 0 <= j < 4 * p ==> #[trigger] out@[j] == bled_byte(d, w as int, h as int, j),
            forall|j: int| 4 * p <= j < d.len() ==> #[trigger] out@[j] == d[j],
        decreases n - p,
    {
        proof {
            lemma_pixel_coords(p as int, w as int, h as int);
        }
        let x = p % w;
        let y = p / w;
        let idx = (p * 4) as usize;
        if prev[idx + 3] > ALPHA_BLEED_THRESHOLD {
            proof {
                assert forall|j: int| 4 * p <= j < 4 * (p + 1) implies #[trigger] out@[j] == bled_byte(
                    d,
                    w as int,
                    h as int,
                    j,
                ) by {
                    assert(j / 4 == p);
                }
            }
            p = p + 1;
            continue;
        }
        let mut red: u32 = 0;
        let mut green: u32 = 0;
        let mut blue: u32 = 0;
        let mut count: u32 = 0;
        add_lender(prev, w, h, x, y, 0, 0, &mut red, &mut green, &mut blue, &mut count);
        add_lender(prev, w, h, x, y, 1, 0, &mut red, &mut green, &mut blue, &mut count);
        add_lender(prev, w, h, x, y, 2, 0, &mut red, &mut green, &mut blue, &mut count);
        add_lender(prev, w, h, x, y, 0, 1, &mut red, &mut green, &mut blue, &mut count);
        add_lender(prev, w, h, x, y, 2, 1, &mut red, &mut green, &mut blue, &mut count);
        add_lender(prev, w, h, x, y, 0, 2, &mut red, &mut green, &mut blue, &mut count);
        add_lender(prev, w, h, x, y, 1, 2, &mut red, &mut green, &mut blue, &mut count);
        add_lender(prev, w, h, x, y, 2, 2, &mut red, &mut green, &mut blue, &mut count);
        let ghost xi = x as int;
        let ghost yi = y as int;
        assert(count == lender_count(d, w as int, h as int, xi, yi));
        assert(red == lent_sum(d, w as int, h as int, xi, yi, 0));
        assert(green == lent_sum(d, w as int, h as int, xi, yi, 1));
        assert(blue == lent_sum(d, w as int, h as int, xi, yi, 2));
        if count > 0 {
            out.set(idx, (red / count) as u8);
            out.set(idx + 1, (green / count) as u8);
            out.set(idx + 2, (blue / count) as u8);
        } else {
            unresolved = true;
        }
        proof {
            assert forall|j: int| 4 * p <= j < 4 * (p + 1) implies #[trigger] out@[j] == bled_byte(
                d,
                w as int,
                h as int,
                j,
            ) by {
                assert(j / 4 == p);
                assert(j % 4 == j - 4 * p);
            }
        }
        p = p + 1;
    }
    assert(out@ =~= bled(d, w as int, h as int));
    unresolved
}

/// Gives transparent texels (alpha at most [`ALPHA_BLEED_THRESHOLD`]) of a `w`×`h` RGBA8 image the
/// mean colour of their opaque neighbours, so that filtering does not darken the edges of cut-outs.
/// Alpha is kept. Passes repeat while some transparent texel had no opaque neighbour, at most
/// `max(log2(max(w, h)) + 2, 4)` times; since a pass reads only opaque texels, which it does not
/// change, every pass gives the same bytes.
pub fn bleed_transparent_rgba8(data: &[u8], width: u32, height: u32) -> (r: Vec<u8>)
    requires
        bleed_admissible(data@, width, height),
    ensures
        r@ == bled(data@, width as int, height as int),
{
    let mut out = vstd::slice::slice_to_vec(data);
    if !any_transparent(&out) {
        proof {
            lemma_bled_opaque(data@, width as int, height as int);
        }
        return out;
    }
    let largest = if width > height { width } else { height };
    proof {
        vstd::std_specs::bits::axiom_u32_leading_zeros(largest);
    }
    let log2 = 31 - largest.leading_zeros();
    let max_iters = if log2 + 2 > 4 { log2 + 2 } else { 4 };
    let mut unresolved = true;
    let mut iter: u32 = 0;
    while iter < max_iters && unresolved
        invariant
            bleed_admissible(data@, width, height),
            max_iters >= 4,
            iter == 0 ==> unresolved,
            iter == 0 ==> out@ == data@,
            iter > 0 ==> out@ == bled(data@, width as int, height as int),
        decreases max_iters - iter,
    {
        let prev = out.clone();
        assert(prev@ =~= out@);
        unresolved = bleed_pass(&prev, &mut out, width, height);
        proof {
            if iter > 0 {
                lemma_bleed_idempotent(data@, width as int, height as int);
            }
        }
        iter = iter + 1;
    }
    out
}

// ───────────────────────────── mip chain ─────────────────────────────

/// `v`, at most `hi`.
pub open spec fn clamp_hi(v: int, hi: int) -> int {
    if v < hi {
        v
    } else {
        hi
    }
}

/// Side of the next mip level: half of `n`, at least 1.
pub open spec fn half_side(n: int) -> int {
    if n / 2 > 1 {
        n / 2
    } else {
        1
    }
}

/// Byte offset, in the `w`×`h` level above, of tap (`ox`, `oy`) ∈ {0, 1}² of pixel (`x`, `y`) of the
/// next level; taps past the last row or column use it instead.
pub open spec fn tap_at(w: int, h: int, x: int, y: int, ox: int, oy: int) -> int {
    4 * (clamp_hi(2 * y + oy, h - 1) * w + clamp_hi(2 * x + ox, w - 1))
}

/// Channel `c` of tap (`ox`, `oy`).
pub open spec fn tap(prev: Seq<u8>, w: int, h: int, x: int, y: int, ox: int, oy: int, c: int) -> int {
    prev[tap_at(w, h, x, y, ox, oy) + c] as int
}

/// Sum of channel `c` over the four taps.
pub open spec fn box_sum(prev: Seq<u8>, w: int, h: int, x: int, y: int, c: int) -> int {
    tap(prev, w, h, x, y, 0, 0, c) + tap(prev, w, h, x, y, 1, 0, c) + tap(prev, w, h, x, y, 0, 1, c) + tap(
        prev,
        w,
        h,
        x,
        y,
        1,
        1,
        c,
    )
}

/// Sum over the four taps of channel `c` times alpha.
pub open spec fn alpha_weighted_sum(prev: Seq<u8>, w: int, h: int, x: int, y: int, c: int) -> int {
    tap(prev, w, h, x, y, 0, 0, c) * tap(prev, w, h, x, y, 0, 0, 3) + tap(prev, w, h, x, y, 1, 0, c) * tap(
        prev,
        w,
        h,
        x,
        y,
        1,
        0,
        3,
    ) + tap(prev, w, h, x, y, 0, 1, c) * tap(prev, w, h, x, y, 0, 1, 3) + tap(prev, w, h, x, y, 1, 1, c) * tap(
        prev,
        w,
        h,
        x,
        y,
        1,
        1,
        3,
    )
}

/// Channel `c` of pixel (`x`, `y`) of the next level: the mean of the four taps (rounded down);
/// with `alpha_aware` and some alpha among them, colour channels are weighted by alpha instead.
pub open spec fn downsampled_channel(prev: Seq<u8>, w: int, h: int, alpha_aware: bool, x: int, y: int, c: int) -> int {
    let weight = box_sum(prev, w, h, x, y, 3);
    if alpha_aware && weight > 0 && c < 3 {
        alpha_weighted_sum(prev, w, h, x, y, c) / weight
    } else {
        box_sum(prev, w, h, x, y, c) / 4
    }
}

/// The level after the `w`×`h` RGBA8 level `prev`.
pub open spec fn downsampled(prev: Seq<u8>, w: int, h: int, alpha_aware: bool) -> Seq<u8> {
    let nw = half_side(w);
    let nh = half_side(h);
    Seq::new(
        (4 * (nw * nh)) as nat,
        |j: int| downsampled_channel(prev, w, h, alpha_aware, (j / 4) % nw, (j / 4) / nw, j % 4) as u8,
    )
}

/// The levels from `level` (`w`×`h`) down to 1×1.
pub open spec fn mip_levels(level: Seq<u8>, w: int, h: int, alpha_aware: bool) -> Seq<Seq<u8>>
    decreases w + h,
{
    if w >= 1 && h >= 1 && (w > 1 || h > 1) {
        seq![level] + mip_levels(downsampled(level, w, h, alpha_aware), half_side(w), half_side(h), alpha_aware)
    } else {
        seq![level]
    }
}

/// The mip chain of the `w`×`h` RGBA8 image `d`: colours are bled first when `alpha_aware`.
pub open spec fn mip_chain(d: Seq<u8>, w: int, h: int, alpha_aware: bool) -> Seq<Seq<u8>> {
    mip_levels(if alpha_aware { bled(d, w, h) } else { d }, w, h, alpha_aware)
}

/// What the mip chain needs: the image fits in `d` and its byte size in a `u32`; an empty side
/// only on a 0×0, 0×1 or 1×0 image; and what bleeding needs when it is alpha-aware.
pub open spec fn mip_admissible(d: Seq<u8>, w: u32, h: u32, alpha_aware: bool) -> bool {
    &&& 4 * (w * h) <= d.len()
    &&& 4 * (w * h) <= u32::MAX
    &&& (w == 0 || h == 0) ==> (w <= 1 && h <= 1)
    &&& alpha_aware ==> bleed_admissible(d, w, h)
}

/// The views of a list of levels.
pub open spec fn level_views(levels: Seq<Vec<u8>>) -> Seq<Seq<u8>> {
    levels.map_values(|l: Vec<u8>| l@)
}

/// Byte offset of tap (`ox`, `oy`) of pixel (`x`, `y`).
fn tap_offset(w: u32, h: u32, x: u32, y: u32, ox: u32, oy: u32) -> (r: usize)
    requires
        1 <= w,
        1 <= h,
        4 * (w * h) <= u32::MAX,
        ox <= 1,
        oy <= 1,
        2 * x < w + 1,
        2 * y < h + 1,
    ensures
        r == tap_at(w as int, h as int, x as int, y as int, ox as int, oy as int),
        r + 3 < 4 * (w * h),
{
    let sx = if x * 2 + ox < w - 1 { x * 2 + ox } else { w - 1 };
    let sy = if y * 2 + oy < h - 1 { y * 2 + oy } else { h - 1 };
    proof {
        lemma_pixel_in_image(w as int, h as int, sx as int, sy as int);
    }
    ((sy * w + sx) * 4) as usize
}

proof fn lemma_weighted_bound(v0: int, v1: int, v2: int, v3: int, a0: int, a1: int, a2: int, a3: int)
    requires
        0 <= v0 <= 255,
        0 <= v1 <= 255,
        0 <= v2 <= 255,
        0 <= v3 <= 255,
        0 <= a0 <= 255,
        0 <= a1 <= 255,
        0 <= a2 <= 255,
        0 <= a3 <= 255,
        a0 + a1 + a2 + a3 > 0,
    ensures
        0 <= v0 * a0 + v1 * a1 + v2 * a2 + v3 * a3 <= 255 * (a0 + a1 + a2 + a3),
        (v0 * a0 + v1 * a1 + v2 * a2 + v3 * a3) / (a0 + a1 + a2 + a3) <= 255,
{
    assert(0 <= v0 * a0 <= 255 * a0) by (nonlinear_arith)
        requires
            0 <= v0 <= 255,
            0 <= a0 <= 255,
    ;
    assert(0 <= v1 * a1 <= 255 * a1) by (nonlinear_arith)
        requires
            0 <= v1 <= 255,
            0 <= a1 <= 255,
    ;
    assert(0 <= v2 * a2 <= 255 * a2) by (nonlinear_arith)
        requires
            0 <= v2 <= 255,
            0 <= a2 <= 255,
    ;
    assert(0 <= v3 * a3 <= 255 * a3) by (nonlinear_arith)
        requires
            0 <= v3 <= 255,
            0 <= a3 <= 255,
    ;
    let s = v0 * a0 + v1 * a1 + v2 * a2 + v3 * a3;
    let t = a0 + a1 + a2 + a3;
    assert(s / t <= 255) by (nonlinear_arith)
        requires
            0 <= s <= 255 * t,
            t > 0,
    ;
}

/// Channel `c` < 3 of one pixel of the next level.
fn downsample_color(
    prev: &Vec<u8>,
    o0: usize,
    o1: usize,
    o2: usize,
    o3: usize,
    alpha_aware: bool,
    weight: u32,
    c: usize,
) -> (r: u8)
    requires
        c < 3,
        o0 + 3 <= u32::MAX,
        o1 + 3 <= u32::MAX,
        o2 + 3 <= u32::MAX,
        o3 + 3 <= u32::MAX,
        o0 + 3 < prev@.len(),
        o1 + 3 < prev@.len(),
        o2 + 3 < prev@.len(),
        o3 + 3 < prev@.len(),
        weight == prev@[o0 + 3] + prev@[o1 + 3] + prev@[o2 + 3] + prev@[o3 + 3],
    ensures
        alpha_aware && weight > 0 ==> r == (prev@[o0 + c] * prev@[o0 + 3] + prev@[o1 + c] * prev@[o1 + 3]
            + prev@[o2 + c] * prev@[o2 + 3] + prev@[o3 + c] * prev@[o3 + 3]) / (weight as int),
        !(alpha_aware && weight > 0) ==> r == (prev@[o0 + c] + prev@[o1 + c] + prev@[o2 + c] + prev@[o3
            + c]) / 4,
{
    let v0 = prev[o0 + c] as u32;
    let v1 = prev[o1 + c] as u32;
    let v2 = prev[o2 + c] as u32;
    let v3 = prev[o3 + c] as u32;
    if alpha_aware && weight > 0 {
        let a0 = prev[o0 + 3] as u32;
        let a1 = prev[o1 + 3] as u32;
        let a2 = prev[o2 + 3] as u32;
        let a3 = prev[o3 + 3] as u32;
        proof {
            lemma_weighted_bound(
                v0 as int,
                v1 as int,
                v2 as int,
                v3 as int,
                a0 as int,
                a1 as int,
                a2 as int,
                a3 as int,
            );
        }
        ((v0 * a0 + v1 * a1 + v2 * a2 + v3 * a3) / weight) as u8
    } else {
        ((v0 + v1 + v2 + v3) / 4) as u8
    }
}

/// The level after the `w`×`h` level `prev` (see [`downsampled`]).
fn downsample(prev: &Vec<u8>, w: u32, h: u32, alpha_aware: bool) -> (r: Vec<u8>)
    requires
        1 <= w,
        1 <= h,
        4 * (w * h) <= prev@.len(),
        4 * (w * h) <= u32::MAX,
    ensures
        r@ == downsampled(prev@, w as int, h as int, alpha_aware),
{
    let nw = if w / 2 > 1 { w / 2 } else { 1 };
    let nh = if h / 2 > 1 { h / 2 } else { 1 };
    assert(nw * nh <= w * h) by (nonlinear_arith)
        requires
            1 <= nw <= w,
            1 <= nh <= h,
    ;
    let n = nw * nh;
    let ghost d = prev@;
    let mut next: Vec<u8> = Vec::new();
    let mut p: u32 = 0;
    while p < n
        invariant
            d == prev@,
            1 <= w,
            1 <= h,
            4 * (w * h) <= d.len(),
            4 * (w * h) <= u32::MAX,
            nw == half_side(w as int),
            nh == half_side(h as int),
            n == nw * nh,
            n <= w * h,
            p <= n,
            next@.len() == 4 * p,
            forall|j: int|
                0 <= j < 4 * p ==> #[trigger] next@[j] == downsampled_channel(
                    d,
                    w as int,
                    h as int,
                    alpha_aware,
                    (j / 4) % (nw as int),
                    (j / 4) / (nw as int),
                    j % 4,
                ) as u8,
        decreases n - p,
    {
        proof {
            lemma_pixel_coords(p as int, nw as int, nh as int);
        }
        let x = p % nw;
        let y = p / nw;
        let o0 = tap_offset(w, h, x, y, 0, 0);
        let o1 = tap_offset(w, h, x, y, 1, 0);
        let o2 = tap_offset(w, h, x, y, 0, 1);
        let o3 = tap_offset(w, h, x, y, 1, 1);
        let weight = prev[o0 + 3] as u32 + prev[o1 + 3] as u32 + prev[o2 + 3] as u32 + prev[o3 + 3] as u32;
        let ghost (wi, hi, xi, yi) = (w as int, h as int, x as int, y as int);
        assert(weight == box_sum(d, wi, hi, xi, yi, 3));
        let red = downsample_color(prev, o0, o1, o2, o3, alpha_aware, weight, 0);
        let green = downsample_color(prev, o0, o1, o2, o3, alpha_aware, weight, 1);
        let blue = downsample_color(prev, o0, o1, o2, o3, alpha_aware, weight, 2);
        let alpha = (weight / 4) as u8;
        let ghost before = next@;
        next.push(red);
        next.push(green);
        next.push(blue);
        next.push(alpha);
        proof {
            assert forall|j: int| 0 <= j < 4 * (p + 1) implies #[trigger] next@[j] == downsampled_channel(
                d,
                wi,
                hi,
                alpha_aware,
                (j / 4) % (nw as int),
                (j / 4) / (nw as int),
                j % 4,
            ) as u8 by {
                if j >= 4 * p {
                    assert(j / 4 == p);
                    assert(j % 4 == j - 4 * p);
                } else {
                    assert(next@[j] == before[j]);
                }
            }
        }
        p = p + 1;
    }
    assert(next@ =~= downsampled(d, w as int, h as int, alpha_aware));
    next
}

/// The mip chain of a `width`×`height` RGBA8 image, level 0 first and down to 1×1: each level
/// averages 2×2 texels of the one above (clamped at its edges). With `alpha_aware_rgb` the base
/// colours are bled first and colour channels are weighted by alpha.
pub fn rgba8_mip_chain(data: &[u8], width: u32, height: u32, alpha_aware_rgb: bool) -> (r: Vec<Vec<u8>>)
    requires
        mip_admissible(data@, width, height, alpha_aware_rgb),
    ensures
        level_views(r@) == mip_chain(data@, width as int, height as int, alpha_aware_rgb),
{
    let base = if alpha_aware_rgb {
        bleed_transparent_rgba8(data, width, height)
    } else {
        vstd::slice::slice_to_vec(data)
    };
    let ghost base_view = base@;
    assert(base_view.len() == data@.len());
    let mut levels: Vec<Vec<u8>> = Vec::new();
    levels.push(base);
    let mut w = width;
    let mut h = height;
    assert(level_views(levels@).drop_last() + mip_levels(base_view, w as int, h as int, alpha_aware_rgb) =~= mip_levels(
        base_view,
        w as int,
        h as int,
        alpha_aware_rgb,
    ));
    while w > 1 || h > 1
        invariant
            levels@.len() >= 1,
            (w == 0 || h == 0) ==> (w <= 1 && h <= 1),
            4 * (w * h) <= levels@.last()@.len(),
            4 * (w * h) <= u32::MAX,
            level_views(levels@).drop_last() + mip_levels(levels@.last()@, w as int, h as int, alpha_aware_rgb)
                == mip_levels(base_view, width as int, height as int, alpha_aware_rgb),
        decreases w + h,
    {
        let ghost old_views = level_views(levels@);
        let ghost last = levels@.last()@;
        let next = downsample(&levels[levels.len() - 1], w, h, alpha_aware_rgb);
        let nw = if w / 2 > 1 { w / 2 } else { 1 };
        let nh = if h / 2 > 1 { h / 2 } else { 1 };
        assert(4 * (nw * nh) <= 4 * (w * h)) by (nonlinear_arith)
            requires
                1 <= nw <= w,
                1 <= nh <= h,
        ;
        levels.push(next);
        proof {
            assert(level_views(levels@) =~= old_views.push(levels@.last()@));
            assert(level_views(levels@).drop_last() =~= old_views);
            assert(old_views =~= old_views.drop_last().push(last));
            assert(mip_levels(last, w as int, h as int, alpha_aware_rgb) == seq![last] + mip_levels(
                levels@.last()@,
                nw as int,
                nh as int,
                alpha_aware_rgb,
            ));
            assert(old_views + mip_levels(levels@.last()@, nw as int, nh as int, alpha_aware_rgb) =~= old_views.drop_last()
                + mip_levels(last, w as int, h as int, alpha_aware_rgb));
        }
        w = nw;
        h = nh;
    }
    proof {
        let views = level_views(levels@);
        assert(mip_levels(levels@.last()@, w as int, h as int, alpha_aware_rgb) == seq![levels@.last()@]);
        assert(views =~= views.drop_last().push(levels@.last()@));
        assert(views =~= views.drop_last() + seq![levels@.last()@]);
    }
    levels
}

/// A chain from a `w`×`h` level (both sides at least 1, one above 1) ends with a single pixel,
/// and each level is a quarter (rounded up to one pixel per side) of the one above.
pub proof fn lemma_mip_chain_ends_at_one_pixel(level: Seq<u8>, w: int, h: int, alpha_aware: bool)
    requires
        w >= 1,
        h >= 1,
        w > 1 || h > 1,
    ensures
        mip_levels(level, w, h, alpha_aware).len() >= 2,
        mip_levels(level, w, h, alpha_aware).last().len() == 4,
        mip_levels(level, w, h, alpha_aware)[1].len() == 4 * (half_side(w) * half_side(h)),
    decreases w + h,
{
    let next = downsampled(level, w, h, alpha_aware);
    let nw = half_side(w);
    let nh = half_side(h);
    assert(nw * nh >= 1) by (nonlinear_arith)
        requires
            nw >= 1,
            nh >= 1,
    ;
    if nw > 1 || nh > 1 {
        lemma_mip_chain_ends_at_one_pixel(next, nw, nh, alpha_aware);
    } else {
        assert(nw == 1 && nh == 1);
    }
}

/// Texel (`x`, `y`) of the next level is made from the block of texels (`2x`..`2x+1`,
/// `2y`..`2y+1`) of the level above: where that block lies inside the `w`×`h` level and holds the
/// same value `v` in channel `c`, the next level (`w/2` wide) holds `v` there, in either mode (a
/// mean of equal values, weighted or not, is that value).
pub proof fn lemma_next_level_from_own_block(
    level: Seq<u8>,
    w: int,
    h: int,
    alpha_aware: bool,
    x: int,
    y: int,
    c: int,
    v: u8,
)
    requires
        0 <= x,
        0 <= y,
        2 * x + 1 < w,
        2 * y + 1 < h,
        0 <= c < 4,
        level[4 * ((2 * y) * w + 2 * x) + c] == v,
        level[4 * ((2 * y) * w + 2 * x + 1) + c] == v,
        level[4 * ((2 * y + 1) * w + 2 * x) + c] == v,
        level[4 * ((2 * y + 1) * w + 2 * x + 1) + c] == v,
    ensures
        mip_levels(level, w, h, alpha_aware).len() >= 2,
        0 <= 4 * (y * (w / 2) + x) + c < mip_levels(level, w, h, alpha_aware)[1].len(),
        mip_levels(level, w, h, alpha_aware)[1][4 * (y * (w / 2) + x) + c] == v,
{
    let nw = w / 2;
    let nh = h / 2;
    assert(half_side(w) == nw && half_side(h) == nh);
    let next = downsampled(level, w, h, alpha_aware);
    assert(mip_levels(level, w, h, alpha_aware) == seq![level] + mip_levels(next, nw, nh, alpha_aware));
    assert(mip_levels(next, nw, nh, alpha_aware)[0] == next);
    let j = 4 * (y * nw + x) + c;
    assert(0 <= x < nw && 0 <= y < nh);
    assert(0 <= y * nw + x < nw * nh) by (nonlinear_arith)
        requires
            0 <= x < nw,
            0 <= y < nh,
    ;
    assert(j / 4 == y * nw + x && j % 4 == c);
    assert((y * nw + x) % nw == x && (y * nw + x) / nw == y) by (nonlinear_arith)
        requires
            0 <= x < nw,
            0 <= y,
    ;
    assert(tap_at(w, h, x, y, 0, 0) == 4 * ((2 * y) * w + 2 * x));
    assert(tap_at(w, h, x, y, 1, 0) == 4 * ((2 * y) * w + 2 * x + 1));
    assert(tap_at(w, h, x, y, 0, 1) == 4 * ((2 * y + 1) * w + 2 * x));
    assert(tap_at(w, h, x, y, 1, 1) == 4 * ((2 * y + 1) * w + 2 * x + 1));
    let vi = v as int;
    assert(box_sum(level, w, h, x, y, c) == 4 * vi);
    let weight = box_sum(level, w, h, x, y, 3);
    if alpha_aware && weight > 0 && c < 3 {
        let a0 = tap(level, w, h, x, y, 0, 0, 3);
        let a1 = tap(level, w, h, x, y, 1, 0, 3);
        let a2 = tap(level, w, h, x, y, 0, 1, 3);
        let a3 = tap(level, w, h, x, y, 1, 1, 3);
        assert(alpha_weighted_sum(level, w, h, x, y, c) == vi * a0 + vi * a1 + vi * a2 + vi * a3);
        assert((vi * a0 + vi * a1 + vi * a2 + vi * a3) / (a0 + a1 + a2 + a3) == vi) by (nonlinear_arith)
            requires
                a0 + a1 + a2 + a3 > 0,
        {
            assert(vi * a0 + vi * a1 + vi * a2 + vi * a3 == vi * (a0 + a1 + a2 + a3));
        }
    }
    assert(downsampled_channel(level, w, h, alpha_aware, x, y, c) == vi);
    assert(next[j] == downsampled_channel(level, w, h, alpha_aware, (j / 4) % nw, (j / 4) / nw, j % 4) as u8);
}

proof fn lemma_floor_div(n: int, d: int)
    requires
        0 <= n,
        0 < d,
    ensures
        (n / d) * d <= n < (n / d + 1) * d,
{
    vstd::arithmetic::div_mod::lemma_fundamental_div_mod(n, d);
    assert((n / d) * d == d * (n / d)) by (nonlinear_arith);
    assert((n / d + 1) * d == d * (n / d) + d) by (nonlinear_arith);
}

/// Texel (`x`, `y`) of the next level, channel `c`, from the four texels (`2x+ox`, `2y+oy`),
/// `ox`, `oy` in {0, 1}, of the `w`×`h` level above (a texel past the last column or row is
/// the last one): the mean of their values rounded down; in alpha-aware mode, for a colour
/// channel and some alpha among them, the mean weighted by their alphas, rounded down.
pub proof fn lemma_next_level_texel(level: Seq<u8>, w: int, h: int, alpha_aware: bool, x: int, y: int, c: int)
    requires
        1 <= w,
        1 <= h,
        w > 1 || h > 1,
        0 <= x < (if w / 2 >= 1 { w / 2 } else { 1 }),
        0 <= y < (if h / 2 >= 1 { h / 2 } else { 1 }),
        0 <= c < 4,
    ensures
        ({
            let nw = if w / 2 >= 1 { w / 2 } else { 1 };
            let x1 = if 2 * x + 1 < w { 2 * x + 1 } else { w - 1 };
            let y1 = if 2 * y + 1 < h { 2 * y + 1 } else { h - 1 };
            let v00 = level[4 * ((2 * y) * w + 2 * x) + c] as int;
            let v10 = level[4 * ((2 * y) * w + x1) + c] as int;
            let v01 = level[4 * (y1 * w + 2 * x) + c] as int;
            let v11 = level[4 * (y1 * w + x1) + c] as int;
            let a00 = level[4 * ((2 * y) * w + 2 * x) + 3] as int;
            let a10 = level[4 * ((2 * y) * w + x1) + 3] as int;
            let a01 = level[4 * (y1 * w + 2 * x) + 3] as int;
            let a11 = level[4 * (y1 * w + x1) + 3] as int;
            let wsum = a00 + a10 + a01 + a11;
            let out = mip_levels(level, w, h, alpha_aware)[1][4 * (y * nw + x) + c] as int;
            &&& mip_levels(level, w, h, alpha_aware).len() >= 2
            &&& 0 <= 4 * (y * nw + x) + c < mip_levels(level, w, h, alpha_aware)[1].len()
            &&& if alpha_aware && c < 3 && wsum > 0 {
                out * wsum <= v00 * a00 + v10 * a10 + v01 * a01 + v11 * a11 < (out + 1) * wsum
            } else {
                4 * out <= v00 + v10 + v01 + v11 < 4 * out + 4
            }
        }),
{
    let nw = half_side(w);
    let nh = half_side(h);
    let next = downsampled(level, w, h, alpha_aware);
    assert(mip_levels(level, w, h, alpha_aware) == seq![level] + mip_levels(next, nw, nh, alpha_aware));
    assert(mip_levels(next, nw, nh, alpha_aware)[0] == next);
    let j = 4 * (y * nw + x) + c;
    assert(0 <= y * nw + x < nw * nh) by (nonlinear_arith)
        requires
            0 <= x < nw,
            0 <= y < nh,
    ;
    assert(j / 4 == y * nw + x && j % 4 == c);
    assert((y * nw + x) % nw == x && (y * nw + x) / nw == y) by (nonlinear_arith)
        requires
            0 <= x < nw,
            0 <= y,
    ;
    assert(2 * x <= w - 1 && 2 * y <= h - 1);
    assert(next[j] == downsampled_channel(level, w, h, alpha_aware, x, y, c) as u8);
    let weight = box_sum(level, w, h, x, y, 3);
    if alpha_aware && weight > 0 && c < 3 {
        let sw = alpha_weighted_sum(level, w, h, x, y, c);
        lemma_weighted_bound(
            tap(level, w, h, x, y, 0, 0, c),
            tap(level, w, h, x, y, 1, 0, c),
            tap(level, w, h, x, y, 0, 1, c),
            tap(level, w, h, x, y, 1, 1, c),
            tap(level, w, h, x, y, 0, 0, 3),
            tap(level, w, h, x, y, 1, 0, 3),
            tap(level, w, h, x, y, 0, 1, 3),
            tap(level, w, h, x, y, 1, 1, 3),
        );
        lemma_floor_div(sw, weight);
    } else {
        lemma_floor_div(box_sum(level, w, h, x, y, c), 4);
    }
}

/// Bleeding keeps every alpha byte, every byte of an opaque texel (alpha above 8) and every byte
/// past the image.
pub proof fn lemma_bleed_keeps(d: Seq<u8>, w: int, h: int, j: int)
    requires
        0 <= j < d.len(),
        1 <= w,
        0 <= h,
        j % 4 == 3 || d[4 * (j / 4) + 3] > 8 || j >= 4 * (w * h),
    ensures
        bled(d, w, h)[j] == d[j],
{
}

/// Bleeding fills a transparent texel (`x`, `y`) (alpha at most 8) from the opaque texels among
/// its eight neighbours inside the image: when they all hold `v` in colour channel `c`, the texel
/// gets `v` there; with no such neighbour it keeps its value.
pub proof fn lemma_bleed_from_opaque_neighbours(d: Seq<u8>, w: int, h: int, x: int, y: int, c: int, v: u8)
    requires
        4 * (w * h) <= d.len(),
        0 <= x < w,
        0 <= y < h,
        0 <= c < 3,
        d[4 * (y * w + x) + 3] <= 8,
        0 <= x - 1 < w && 0 <= y - 1 < h && d[4 * ((y - 1) * w + (x - 1)) + 3] > 8 ==> d[4 * ((y - 1) * w + (x - 1)) + c] == v,
        0 <= x < w && 0 <= y - 1 < h && d[4 * ((y - 1) * w + (x)) + 3] > 8 ==> d[4 * ((y - 1) * w + (x)) + c] == v,
        0 <= x + 1 < w && 0 <= y - 1 < h && d[4 * ((y - 1) * w + (x + 1)) + 3] > 8 ==> d[4 * ((y - 1) * w + (x + 1)) + c] == v,
        0 <= x - 1 < w && 0 <= y < h && d[4 * ((y) * w + (x - 1)) + 3] > 8 ==> d[4 * ((y) * w + (x - 1)) + c] == v,
        0 <= x + 1 < w && 0 <= y < h && d[4 * ((y) * w + (x + 1)) + 3] > 8 ==> d[4 * ((y) * w + (x + 1)) + c] == v,
        0 <= x - 1 < w && 0 <= y + 1 < h && d[4 * ((y + 1) * w + (x - 1)) + 3] > 8 ==> d[4 * ((y + 1) * w + (x - 1)) + c] == v,
        0 <= x < w && 0 <= y + 1 < h && d[4 * ((y + 1) * w + (x)) + 3] > 8 ==> d[4 * ((y + 1) * w + (x)) + c] == v,
        0 <= x + 1 < w && 0 <= y + 1 < h && d[4 * ((y + 1) * w + (x + 1)) + 3] > 8 ==> d[4 * ((y + 1) * w + (x + 1)) + c] == v,
    ensures
        ((0 <= x - 1 < w && 0 <= y - 1 < h && d[4 * ((y - 1) * w + (x - 1)) + 3] > 8) || (0 <= x < w && 0 <= y - 1 < h && d[4 * ((y - 1) * w + (x)) + 3] > 8) || (0 <= x + 1 < w && 0 <= y - 1 < h && d[4 * ((y - 1) * w + (x + 1)) + 3] > 8) || (0 <= x - 1 < w && 0 <= y < h && d[4 * ((y) * w + (x - 1)) + 3] > 8) || (0 <= x + 1 < w && 0 <= y < h && d[4 * ((y) * w + (x + 1)) + 3] > 8) || (0 <= x - 1 < w && 0 <= y + 1 < h && d[4 * ((y + 1) * w + (x - 1)) + 3] > 8) || (0 <= x < w && 0 <= y + 1 < h && d[4 * ((y + 1) * w + (x)) + 3] > 8) || (0 <= x + 1 < w && 0 <= y + 1 < h && d[4 * ((y + 1) * w + (x + 1)) + 3] > 8)) ==> bled(d, w, h)[4 * (y * w + x) + c] == v,
        !((0 <= x - 1 < w && 0 <= y - 1 < h && d[4 * ((y - 1) * w + (x - 1)) + 3] > 8) || (0 <= x < w && 0 <= y - 1 < h && d[4 * ((y - 1) * w + (x)) + 3] > 8) || (0 <= x + 1 < w && 0 <= y - 1 < h && d[4 * ((y - 1) * w + (x + 1)) + 3] > 8) || (0 <= x - 1 < w && 0 <= y < h && d[4 * ((y) * w + (x - 1)) + 3] > 8) || (0 <= x + 1 < w && 0 <= y < h && d[4 * ((y) * w + (x + 1)) + 3] > 8) || (0 <= x - 1 < w && 0 <= y + 1 < h && d[4 * ((y + 1) * w + (x - 1)) + 3] > 8) || (0 <= x < w && 0 <= y + 1 < h && d[4 * ((y + 1) * w + (x)) + 3] > 8) || (0 <= x + 1 < w && 0 <= y + 1 < h && d[4 * ((y + 1) * w + (x + 1)) + 3] > 8)) ==> bled(d, w, h)[4 * (y * w + x) + c] == d[4 * (y * w + x) + c],
{
    let p = y * w + x;
    let j = 4 * p + c;
    assert(0 <= p < w * h) by (nonlinear_arith)
        requires
            0 <= x < w,
            0 <= y < h,
            p == y * w + x,
    ;
    assert(j / 4 == p && j % 4 == c);
    assert(p % w == x && p / w == y) by (nonlinear_arith)
        requires
            0 <= x < w,
            0 <= y,
            p == y * w + x,
    ;
    assert((y - 1) * w == y * w - w && (y + 1) * w == y * w + w) by (nonlinear_arith);
    let n = lender_count(d, w, h, x, y);
    let sum = lent_sum(d, w, h, x, y, c);
    assert(sum == n * (v as int)) by (nonlinear_arith)
        requires
            sum == lent(d, w, h, x, y, -1, -1, c) + lent(d, w, h, x, y, 0, -1, c) + lent(d, w, h, x, y, 1, -1, c) + lent(d, w, h, x, y, -1, 0, c)
                + lent(d, w, h, x, y, 1, 0, c) + lent(d, w, h, x, y, -1, 1, c) + lent(d, w, h, x, y, 0, 1, c) + lent(d, w, h, x, y, 1, 1, c),
            n == lender(d, w, h, x, y, -1, -1) + lender(d, w, h, x, y, 0, -1) + lender(d, w, h, x, y, 1, -1) + lender(d, w, h, x, y, -1, 0)
                + lender(d, w, h, x, y, 1, 0) + lender(d, w, h, x, y, -1, 1) + lender(d, w, h, x, y, 0, 1) + lender(d, w, h, x, y, 1, 1),
            lent(d, w, h, x, y, -1, -1, c) == lender(d, w, h, x, y, -1, -1) * (v as int),
            lent(d, w, h, x, y, 0, -1, c) == lender(d, w, h, x, y, 0, -1) * (v as int),
            lent(d, w, h, x, y, 1, -1, c) == lender(d, w, h, x, y, 1, -1) * (v as int),
            lent(d, w, h, x, y, -1, 0, c) == lender(d, w, h, x, y, -1, 0) * (v as int),
            lent(d, w, h, x, y, 1, 0, c) == lender(d, w, h, x, y, 1, 0) * (v as int),
            lent(d, w, h, x, y, -1, 1, c) == lender(d, w, h, x, y, -1, 1) * (v as int),
            lent(d, w, h, x, y, 0, 1, c) == lender(d, w, h, x, y, 0, 1) * (v as int),
            lent(d, w, h, x, y, 1, 1, c) == lender(d, w, h, x, y, 1, 1) * (v as int),
    ;
    if n > 0 {
        assert((n * (v as int)) / n == v as int) by (nonlinear_arith)
            requires
                n > 0,
        ;
    }
}

} // verus!
