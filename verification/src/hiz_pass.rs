//! Sizes of the hierarchical-Z pyramid: its mip count and the workgroups that build each mip.

use vstd::prelude::*;

use vstd::arithmetic::power2::{lemma2_to64, lemma_pow2_unfold, pow2};

use crate::exec_validate::{mip_dimensions, mip_extent};

verus! {

/// `a / b` rounded up.
pub fn div_ceil(a: u32, b: u32) -> (r: u32)
    requires
        b > 0,
        a + b <= u32::MAX,
    ensures
        r == (a + b - 1) / (b as int),
        r * b >= a,
        a > 0 ==> (r - 1) * b < a,
{
    let r = (a + b - 1) / b;
    assert(r * b >= a && (a > 0 ==> (r - 1) * b < a)) by (nonlinear_arith)
        requires
            b > 0,
            r == (a + b - 1) / (b as int),
    ;
    r
}

/// Number of binary digits of `n` (0 for 0).
pub open spec fn bit_length(n: nat) -> nat
    decreases n,
{
    if n == 0 {
        0
    } else {
        1 + bit_length(n / 2)
    }
}

/// Mips of the Hi-Z pyramid of a `width` x `height` screen: the binary digits of the larger
/// side (what `ceil(log2(max)) + 1` gives on powers of two), at least one.
pub open spec fn hiz_mips(width: u32, height: u32) -> nat {
    let m = if width >= height { width } else { height };
    if bit_length(m as nat) == 0 {
        1
    } else {
        bit_length(m as nat)
    }
}

proof fn lemma_bit_length_bound(n: nat, k: nat)
    requires
        n < pow2(k),
    ensures
        bit_length(n) <= k,
    decreases k,
{
    if n > 0 {
        if k == 0 {
            lemma2_to64();
        } else {
            lemma_pow2_unfold(k);
            lemma_bit_length_bound(n / 2, (k - 1) as nat);
        }
    }
}

proof fn lemma_bit_length_pow2(n: nat)
    requires
        n >= 1,
    ensures
        bit_length(n) >= 1,
        pow2((bit_length(n) - 1) as nat) <= n < pow2(bit_length(n)),
    decreases n,
{
    if n == 1 {
        assert(bit_length(0) == 0);
        lemma_pow2_unfold(1);
        vstd::arithmetic::power::lemma_pow0(2);
    } else {
        lemma_bit_length_pow2(n / 2);
        let b = bit_length(n / 2);
        lemma_pow2_unfold(b + 1);
        if b >= 2 {
            lemma_pow2_unfold(b);
        } else {
            vstd::arithmetic::power::lemma_pow0(2);
            lemma_pow2_unfold(1);
        }
    }
}

/// The Hi-Z pyramid has one mip per halving of the larger side down to one texel: with `m` the
/// larger side (at least 1), `2^(mips-1) <= m < 2^mips`; a 0×0 screen has one mip.
pub proof fn lemma_hiz_mips_halvings(width: u32, height: u32)
    ensures
        ({
            let m = if width >= height { width } else { height };
            &&& m == 0 ==> hiz_mips(width, height) == 1
            &&& m >= 1 ==> pow2((hiz_mips(width, height) - 1) as nat) <= m < pow2(hiz_mips(width, height))
        }),
{
    let m = if width >= height { width } else { height };
    if m >= 1 {
        lemma_bit_length_pow2(m as nat);
    } else {
        assert(bit_length(0) == 0);
    }
}

/// Mip count of the Hi-Z pyramid (see [`hiz_mips`]).
pub fn hiz_mip_count(width: u32, height: u32) -> (r: u32)
    ensures
        r == hiz_mips(width, height),
        1 <= r <= 32,
{
    let m = if width >= height { width } else { height };
    let mut n: u32 = m;
    let mut bits: u32 = 0;
    proof {
        lemma2_to64();
        lemma_bit_length_bound(m as nat, 32);
    }
    while n > 0
        invariant
            bits + bit_length(n as nat) == bit_length(m as nat),
            bit_length(m as nat) <= 32,
        decreases n,
    {
        n = n / 2;
        bits = bits + 1;
    }
    if bits == 0 {
        1
    } else {
        bits
    }
}

/// Workgroups (8 x 8 texels each) of the passes that fill the Hi-Z pyramid: mip 0 from the depth
/// prepass, then each further mip from the one before, halving each side down to 1.
pub fn hiz_workgroups(width: u32, height: u32) -> (r: Vec<(u32, u32)>)
    requires
        width <= u32::MAX - 8,
        height <= u32::MAX - 8,
    ensures
        r@.len() == hiz_mips(width, height),
        forall|i: int|
            0 <= i < r@.len() ==> #[trigger] r@[i] == (
                ((mip_extent(width, i as nat) + 7) / 8) as u32,
                ((mip_extent(height, i as nat) + 7) / 8) as u32,
            ),
{
    let mips = hiz_mip_count(width, height);
    let mut out: Vec<(u32, u32)> = Vec::new();
    let mut level: u32 = 0;
    while level < mips
        invariant
            level <= mips,
            mips == hiz_mips(width, height),
            width <= u32::MAX - 8,
            height <= u32::MAX - 8,
            out@.len() == level,
            forall|i: int|
                0 <= i < level ==> #[trigger] out@[i] == (
                    ((mip_extent(width, i as nat) + 7) / 8) as u32,
                    ((mip_extent(height, i as nat) + 7) / 8) as u32,
                ),
        decreases mips - level,
    {
        let (w, h) = mip_dimensions(width, height, level);
        proof {
            lemma_mip_extent_bound(width, level as nat);
            lemma_mip_extent_bound(height, level as nat);
        }
        out.push((div_ceil(w, 8), div_ceil(h, 8)));
        level = level + 1;
    }
    out
}

proof fn lemma_mip_extent_bound(x: u32, level: nat)
    ensures
        mip_extent(x, level) <= x || mip_extent(x, level) == 1,
    decreases level,
{
    if level > 0 {
        lemma_mip_extent_bound(x, (level - 1) as nat);
    }
}

} // verus!
