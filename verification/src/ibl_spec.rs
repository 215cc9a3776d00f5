//! Resolution and sampling presets of the CPU image-based-lighting bake.

use vstd::prelude::*;

use crate::text::{ascii_lower_seq, ascii_lowercase_chars, chars_of, is_white_space, is_white_space_char};

verus! {

/// Complete parameters of one IBL generation from an equirectangular HDR.
#[derive(Debug, Clone, Copy, PartialEq, Eq)]
pub struct IblGenerationSpec {
    /// Face size of the diffuse irradiance cubemap.
    pub irradiance_size: u32,
    /// Mip-0 face size of the prefiltered specular cubemap (a power of two).
    pub prefiltered_size: u32,
    /// Side of the split-sum BRDF lookup table.
    pub brdf_lut_size: u32,
    /// Monte Carlo samples per irradiance texel.
    pub irradiance_samples: u32,
    /// Target samples at mip 0 of the prefiltered map (fewer on small mips).
    pub prefiltered_base_samples: u32,
    /// Samples per texel of the BRDF integral.
    pub brdf_integral_samples: u32,
}

/// The preset with the given six values.
pub open spec fn preset(a: u32, b: u32, c: u32, d: u32, e: u32, f: u32) -> IblGenerationSpec {
    IblGenerationSpec {
        irradiance_size: a,
        prefiltered_size: b,
        brdf_lut_size: c,
        irradiance_samples: d,
        prefiltered_base_samples: e,
        brdf_integral_samples: f,
    }
}

pub open spec fn spec_max() -> IblGenerationSpec { preset(128, 512, 256, 1024, 384, 1024) }
pub open spec fn spec_high() -> IblGenerationSpec { preset(64, 256, 256, 1024, 384, 1024) }
pub open spec fn spec_medium() -> IblGenerationSpec { preset(32, 128, 128, 1024, 256, 512) }
pub open spec fn spec_low() -> IblGenerationSpec { preset(32, 64, 64, 512, 256, 512) }
pub open spec fn spec_min() -> IblGenerationSpec { preset(16, 32, 32, 256, 128, 256) }

/// `s` without its leading and trailing white space (as `str::trim`).
pub open spec fn trimmed(s: Seq<char>, lo: int, hi: int) -> bool {
    &&& 0 <= lo <= hi <= s.len()
    &&& forall|i: int| 0 <= i < lo ==> is_white_space(#[trigger] s[i])
    &&& forall|i: int| hi <= i < s.len() ==> is_white_space(#[trigger] s[i])
    &&& lo < hi ==> !is_white_space(s[lo]) && !is_white_space(s[hi - 1])
}

/// The tier named by `n` (already trimmed and lower-cased); unknown names give `max`.
pub open spec fn tier_for(n: Seq<char>) -> IblGenerationSpec {
    if n == "max"@ || n == ""@ || n == "default"@ {
        spec_max()
    } else if n == "high"@ {
        spec_high()
    } else if n == "medium"@ {
        spec_medium()
    } else if n == "low"@ {
        spec_low()
    } else if n == "min"@ || n == "minimum"@ {
        spec_min()
    } else {
        spec_max()
    }
}

/// The tier a name selects: white space around it and ASCII case are ignored.
pub open spec fn spec_from_tier_name(name: Seq<char>) -> IblGenerationSpec {
    let b = choose|b: (int, int)| trimmed(name, b.0, b.1);
    tier_for(ascii_lower_seq(name.subrange(b.0, b.1)))
}

impl IblGenerationSpec {
    /// Highest quality (historical defaults): irradiance 128, prefiltered 512, LUT 256.
    pub fn max() -> (r: Self)
        ensures
            r == spec_max(),
    {
        IblGenerationSpec {
            irradiance_size: 128,
            prefiltered_size: 512,
            brdf_lut_size: 256,
            irradiance_samples: 1024,
            prefiltered_base_samples: 384,
            brdf_integral_samples: 1024,
        }
    }

    /// Smaller maps, same sample counts.
    pub fn high() -> (r: Self)
        ensures
            r == spec_high(),
    {
        IblGenerationSpec {
            irradiance_size: 64,
            prefiltered_size: 256,
            brdf_lut_size: 256,
            irradiance_samples: 1024,
            prefiltered_base_samples: 384,
            brdf_integral_samples: 1024,
        }
    }

    pub fn medium() -> (r: Self)
        ensures
            r == spec_medium(),
    {
        IblGenerationSpec {
            irradiance_size: 32,
            prefiltered_size: 128,
            brdf_lut_size: 128,
            irradiance_samples: 1024,
            prefiltered_base_samples: 256,
            brdf_integral_samples: 512,
        }
    }

    pub fn low() -> (r: Self)
        ensures
            r == spec_low(),
    {
        IblGenerationSpec {
            irradiance_size: 32,
            prefiltered_size: 64,
            brdf_lut_size: 64,
            irradiance_samples: 512,
            prefiltered_base_samples: 256,
            brdf_integral_samples: 512,
        }
    }

    /// Fallback quality: a much shorter bake.
    pub fn min() -> (r: Self)
        ensures
            r == spec_min(),
    {
        IblGenerationSpec {
            irradiance_size: 16,
            prefiltered_size: 32,
            brdf_lut_size: 32,
            irradiance_samples: 256,
            prefiltered_base_samples: 128,
            brdf_integral_samples: 256,
        }
    }

    /// Tier selected by name (`ibl_tier` of the viewer configuration); unknown names give `max`.
    pub fn from_tier_name(name: &str) -> (r: Self)
        ensures
            r == spec_from_tier_name(name@),
    {
        from_tier_name_str(name)
    }
}

impl Default for IblGenerationSpec {
    fn default() -> (r: Self)
        ensures
            r == spec_max(),
    {
        Self::max()
    }
}

fn trim_bounds(s: &Vec<char>) -> (r: (usize, usize))
    ensures
        trimmed(s@, r.0 as int, r.1 as int),
{
    let mut lo: usize = 0;
    while lo < s.len() && is_white_space_char(s[lo])
        invariant
            lo <= s@.len(),
            forall|i: int| 0 <= i < lo ==> is_white_space(#[trigger] s@[i]),
        decreases s.len() - lo,
    {
        lo = lo + 1;
    }
    let mut hi: usize = s.len();
    while hi > lo && is_white_space_char(s[hi - 1])
        invariant
            lo <= hi <= s@.len(),
            forall|i: int| hi <= i < s@.len() ==> is_white_space(#[trigger] s@[i]),
            lo < s@.len() ==> !is_white_space(s@[lo as int]),
        decreases hi,
    {
        hi = hi - 1;
    }
    (lo, hi)
}

proof fn lemma_trimmed_unique(s: Seq<char>, lo: int, hi: int, lo2: int, hi2: int)
    requires
        trimmed(s, lo, hi),
        trimmed(s, lo2, hi2),
    ensures
        s.subrange(lo, hi) == s.subrange(lo2, hi2),
{
    if lo < hi && lo2 < hi2 {
        if lo < lo2 {
            assert(is_white_space(s[lo]));
        }
        if lo2 < lo {
            assert(is_white_space(s[lo2]));
        }
        if hi < hi2 {
            assert(is_white_space(s[hi2 - 1]));
        }
        if hi2 < hi {
            assert(is_white_space(s[hi - 1]));
        }
    } else if lo < hi {
        // every character is white space in the second reading
        if lo < lo2 {
            assert(is_white_space(s[lo]));
        } else {
            assert(lo >= hi2);
            assert(is_white_space(s[lo]));
        }
    } else if lo2 < hi2 {
        if lo2 < lo {
            assert(is_white_space(s[lo2]));
        } else {
            assert(lo2 >= hi);
            assert(is_white_space(s[lo2]));
        }
    }
    assert(s.subrange(lo, hi) =~= s.subrange(lo2, hi2));
}

fn chars_eq(a: &Vec<char>, b: &str) -> (r: bool)
    ensures
        r == (a@ == b@),
{
    let bc = chars_of(b);
    if a.len() != bc.len() {
        return false;
    }
    let mut i: usize = 0;
    while i < a.len()
        invariant
            a@.len() == bc@.len(),
            bc@ == b@,
            i <= a@.len(),
            forall|j: int| 0 <= j < i ==> a@[j] == bc@[j],
        decreases a.len() - i,
    {
        if a[i] != bc[i] {
            assert(a@[i as int] != b@[i as int]);
            return false;
        }
        i = i + 1;
    }
    assert(a@ =~= bc@);
    true
}

fn from_tier_name_str(name: &str) -> (r: IblGenerationSpec)
    ensures
        r == spec_from_tier_name(name@),
{
    let chars = chars_of(name);
    let (lo, hi) = trim_bounds(&chars);
    let mut n: Vec<char> = Vec::new();
    let mut i: usize = lo;
    while i < hi
        invariant
            lo <= i <= hi <= chars@.len(),
            n@ == ascii_lower_seq(chars@.subrange(lo as int, i as int)),
        decreases hi - i,
    {
        let c = chars[i];
        let l = if 'A' <= c && c <= 'Z' { ((c as u8) + 32) as char } else { c };
        n.push(l);
        i = i + 1;
        assert(n@ =~= ascii_lower_seq(chars@.subrange(lo as int, i as int)));
    }
    proof {
        assert(trimmed(name@, (lo as int, hi as int).0, (lo as int, hi as int).1));
        let b = choose|b: (int, int)| trimmed(name@, b.0, b.1);
        lemma_trimmed_unique(name@, lo as int, hi as int, b.0, b.1);
    }
    if chars_eq(&n, "max") || chars_eq(&n, "") || chars_eq(&n, "default") {
        IblGenerationSpec::max()
    } else if chars_eq(&n, "high") {
        IblGenerationSpec::high()
    } else if chars_eq(&n, "medium") {
        IblGenerationSpec::medium()
    } else if chars_eq(&n, "low") {
        IblGenerationSpec::low()
    } else if chars_eq(&n, "min") || chars_eq(&n, "minimum") {
        IblGenerationSpec::min()
    } else {
        IblGenerationSpec::max()
    }
}

/// Same selection as [`IblGenerationSpec::from_tier_name`] (an unknown name is not reported).
pub fn from_tier_name_silent(name: &str) -> (r: IblGenerationSpec)
    ensures
        r == spec_from_tier_name(name@),
{
    from_tier_name_str(name)
}

/// Mips of the prefiltered map whose mip 0 face is `mip0_size`: trailing zero bits plus one.
pub open spec fn prefiltered_mips(mip0_size: u32) -> int {
    vstd::std_specs::bits::u32_trailing_zeros(mip0_size) + 1
}

/// Mip count of the prefiltered map whose mip 0 face is `mip0_size` (a power of two):
/// trailing zero bits plus one.
pub fn prefiltered_mip_level_count(mip0_size: u32) -> (r: u32)
    ensures
        r == prefiltered_mips(mip0_size),
{
    proof {
        vstd::std_specs::bits::axiom_u32_trailing_zeros(mip0_size);
    }
    mip0_size.trailing_zeros() + 1
}

/// Whatever tier a name selects, `max` is at least as large on every map and every sample count.
pub proof fn lemma_max_tier_is_largest(name: Seq<char>)
    ensures
        spec_from_tier_name(name).irradiance_size <= spec_max().irradiance_size,
        spec_from_tier_name(name).prefiltered_size <= spec_max().prefiltered_size,
        spec_from_tier_name(name).brdf_lut_size <= spec_max().brdf_lut_size,
        spec_from_tier_name(name).irradiance_samples <= spec_max().irradiance_samples,
        spec_from_tier_name(name).prefiltered_base_samples <= spec_max().prefiltered_base_samples,
        spec_from_tier_name(name).brdf_integral_samples <= spec_max().brdf_integral_samples,
{
}

/// A prefiltered map whose mip 0 face is `2^k` texels wide has `k + 1` mips: one per halving
/// down to a single texel.
pub proof fn lemma_prefiltered_mips_of_power_of_two(k: u32)
    requires
        k < 32,
    ensures
        prefiltered_mips(1u32 << k) == k + 1,
{
    let x: u32 = 1u32 << k;
    vstd::std_specs::bits::axiom_u32_trailing_zeros(x);
    assert(x != 0) by (bit_vector)
        requires
            k < 32,
            x == 1u32 << k,
    ;
    let t = vstd::std_specs::bits::u32_trailing_zeros(x) as u32;
    assert((x >> k) & 1u32 == 1u32) by (bit_vector)
        requires
            k < 32,
            x == 1u32 << k,
    ;
    if t < k {
        assert((x >> t) & 1u32 == 0u32) by (bit_vector)
            requires
                k < 32,
                t < k,
                x == 1u32 << k,
        ;
    }
    if t > k {
        assert((x >> k) & 1u32 == 0u32);
    }
}

} // verus!
