use w3drs::asset_registry::{bleed_transparent_rgba8, rgba8_mip_chain, MaterialTextures};
use w3drs::gltf_loader::{to_rgba8, PixelFormat};
use w3drs::hdr_target::pick_hdr_main_pass_msaa;
use w3drs::hiz_pass::{div_ceil, hiz_mip_count, hiz_workgroups};
use w3drs::ibl::{f16_from_f32_bits, push_rg16f, push_rgba16f};
use w3drs::ibl_spec::{from_tier_name_silent, prefiltered_mip_level_count, IblGenerationSpec};
use w3drs::input::{ButtonsHeld, PointerButton};
use w3drs::material::{alpha_mode_code, AlphaMode, ShadingModel, MATERIAL_TEX_SLOT_COUNT, TEX_UV_OCCLUSION};
use w3drs::phase_a_viewer_config::{active_variant_index, default_active_variant, default_ibl_tier};
use w3drs::primitives::{cube_indices, triangle_indices, uv_sphere_indices};
use w3drs::render_command::{build_batches, derive_shadow_batches, BatchKey, DrawBatch, ShadowBatch};

#[test]
fn rgba8_mip_chain_reaches_one_by_one() {
    let data = vec![255u8; 4 * 4 * 4];
    let mips = rgba8_mip_chain(&data, 4, 4, false);
    assert_eq!(mips.len(), 3);
    assert_eq!(mips[0].len(), 4 * 4 * 4);
    assert_eq!(mips[1].len(), 2 * 2 * 4);
    assert_eq!(mips[2].len(), 4);
}

#[test]
fn rgba8_mip_chain_averages_pixels() {
    let data = vec![0, 0, 0, 255, 100, 0, 0, 255, 200, 0, 0, 255, 255, 0, 0, 255];
    let mips = rgba8_mip_chain(&data, 2, 2, false);
    assert_eq!(mips[1], vec![138, 0, 0, 255]);
}

#[test]
fn rgba8_mip_chain_alpha_weights_rgb() {
    let data = vec![
        255, 0, 0, 0, 255, 255, 255, 255, 255, 0, 0, 0, 255, 255, 255, 255,
    ];
    let mips = rgba8_mip_chain(&data, 2, 2, true);
    assert_eq!(mips[1], vec![255, 255, 255, 127]);
}

#[test]
fn bleed_transparent_rgba8_fills_zero_alpha_rgb_from_neighbors() {
    let data = vec![255, 0, 0, 0, 10, 20, 30, 255];
    let out = bleed_transparent_rgba8(&data, 2, 1);
    assert_eq!(&out[0..4], &[10, 20, 30, 0]);
    assert_eq!(&out[4..8], &[10, 20, 30, 255]);
}

#[test]
fn bleed_is_idempotent_and_keeps_alpha() {
    // 3x1: transparent, opaque, transparent at the threshold
    let data = vec![1, 2, 3, 0, 40, 50, 60, 200, 7, 8, 9, 8];
    let once = bleed_transparent_rgba8(&data, 3, 1);
    assert_eq!(once, vec![40, 50, 60, 0, 40, 50, 60, 200, 40, 50, 60, 8]);
    let twice = bleed_transparent_rgba8(&once, 3, 1);
    assert_eq!(twice, once);
}

#[test]
fn bleed_averages_opaque_neighbours_and_keeps_isolated_texels() {
    // 2x2: one transparent texel with three opaque neighbours
    let data = vec![0, 0, 0, 0, 30, 0, 0, 255, 0, 60, 0, 255, 0, 0, 90, 9];
    let out = bleed_transparent_rgba8(&data, 2, 2);
    assert_eq!(&out[0..4], &[10, 20, 30, 0]);
    assert_eq!(&out[4..16], &data[4..16]);
    // a transparent image has no opaque neighbour: nothing changes
    let clear = vec![5, 6, 7, 0, 8, 9, 10, 3];
    assert_eq!(bleed_transparent_rgba8(&clear, 2, 1), clear);
    // an opaque image is returned as it is
    let solid = vec![1, 2, 3, 255];
    assert_eq!(bleed_transparent_rgba8(&solid, 1, 1), solid);
}

#[test]
fn mip_chain_of_odd_and_flat_images() {
    // 3x1 → 1x1: the 2x2 taps clamp to the last column and the single row
    let data = vec![10, 0, 0, 255, 20, 0, 0, 255, 30, 0, 0, 255];
    let mips = rgba8_mip_chain(&data, 3, 1, false);
    assert_eq!(mips.len(), 2);
    assert_eq!(mips[1], vec![15, 0, 0, 255]);
    // 1x1: a single level
    let one = rgba8_mip_chain(&[1, 2, 3, 4], 1, 1, false);
    assert_eq!(one, vec![vec![1, 2, 3, 4]]);
    // 0x0: the data is kept as the only level
    let empty = rgba8_mip_chain(&[], 0, 0, false);
    assert_eq!(empty, vec![Vec::<u8>::new()]);
    // 8x2 → 4x1 → 2x1 → 1x1
    let wide = vec![0u8; 8 * 2 * 4];
    let levels: Vec<usize> = rgba8_mip_chain(&wide, 8, 2, false).iter().map(|l| l.len()).collect();
    assert_eq!(levels, vec![64, 16, 8, 4]);
}

#[test]
fn material_textures_default_to_none() {
    let t = MaterialTextures::default();
    assert_eq!(t.albedo, None);
    assert_eq!(t.occlusion, None);
    assert_eq!(t, MaterialTextures { albedo: None, ..MaterialTextures::default() });
}

#[test]
fn tier_max_is_largest_prefilter() {
    let m = IblGenerationSpec::max();
    let lo = IblGenerationSpec::min();
    assert!(m.prefiltered_size > lo.prefiltered_size);
    assert_eq!(m, IblGenerationSpec::from_tier_name("max"));
    assert_eq!(lo, IblGenerationSpec::from_tier_name("min"));
}

#[test]
fn from_tier_silent_unknown() {
    let d = from_tier_name_silent("nope");
    assert_eq!(d, IblGenerationSpec::max());
}

#[test]
fn tier_names_ignore_case_and_surrounding_space() {
    assert_eq!(IblGenerationSpec::from_tier_name("  High\t"), IblGenerationSpec::high());
    assert_eq!(IblGenerationSpec::from_tier_name("MEDIUM"), IblGenerationSpec::medium());
    assert_eq!(IblGenerationSpec::from_tier_name("low"), IblGenerationSpec::low());
    assert_eq!(IblGenerationSpec::from_tier_name("Minimum "), IblGenerationSpec::min());
    assert_eq!(IblGenerationSpec::from_tier_name(""), IblGenerationSpec::max());
    assert_eq!(IblGenerationSpec::from_tier_name("default"), IblGenerationSpec::max());
    assert_eq!(IblGenerationSpec::from_tier_name("me dium"), IblGenerationSpec::max());
    assert_eq!(IblGenerationSpec::default(), IblGenerationSpec::max());
}

#[test]
fn tier_presets_have_their_sizes() {
    let m = IblGenerationSpec::max();
    assert_eq!((m.irradiance_size, m.prefiltered_size, m.brdf_lut_size), (128, 512, 256));
    let h = IblGenerationSpec::high();
    assert_eq!((h.irradiance_size, h.prefiltered_size, h.brdf_lut_size), (64, 256, 256));
    let l = IblGenerationSpec::low();
    assert_eq!((l.irradiance_samples, l.prefiltered_base_samples, l.brdf_integral_samples), (512, 256, 512));
}

#[test]
fn prefiltered_mip_count_of_powers_of_two() {
    assert_eq!(prefiltered_mip_level_count(512), 10);
    assert_eq!(prefiltered_mip_level_count(32), 6);
    assert_eq!(prefiltered_mip_level_count(1), 1);
}

#[test]
fn div_ceil_rounds_up() {
    assert_eq!(div_ceil(7, 8), 1);
    assert_eq!(div_ceil(16, 8), 2);
    assert_eq!(div_ceil(17, 8), 3);
    assert_eq!(div_ceil(0, 8), 0);
}

#[test]
fn shadow_batches_group_runs_of_one_mesh() {
    let b = derive_shadow_batches(&vec![3, 3, 5, 7, 7, 7]);
    assert_eq!(
        b,
        vec![
            ShadowBatch { mesh_id: 3, first_instance: 0, instance_count: 2 },
            ShadowBatch { mesh_id: 5, first_instance: 2, instance_count: 1 },
            ShadowBatch { mesh_id: 7, first_instance: 3, instance_count: 3 },
        ]
    );
    assert!(derive_shadow_batches(&vec![]).is_empty());
    // a mesh that comes back later starts a new batch
    let again = derive_shadow_batches(&vec![1, 2, 1]);
    assert_eq!(again.len(), 3);
    assert_eq!(again[2], ShadowBatch { mesh_id: 1, first_instance: 2, instance_count: 1 });
}

#[test]
fn build_batches_sorts_and_groups_by_mesh_and_material() {
    let k = |mesh_id: u32, material_id: u32, cast_shadow: bool| BatchKey { mesh_id, material_id, cast_shadow };
    let cmds = vec![k(2, 1, false), k(1, 5, false), k(2, 1, true), k(1, 5, false), k(1, 3, false)];
    let (order, batches) = build_batches(&cmds);
    assert_eq!(order.len(), 5);
    let mut seen = order.clone();
    seen.sort();
    assert_eq!(seen, vec![0, 1, 2, 3, 4]);
    assert_eq!(order[0], 4);
    assert!(order[1] == 1 || order[1] == 3);
    assert!(order[3] == 0 || order[3] == 2);
    assert_eq!(
        batches,
        vec![
            DrawBatch { mesh_id: 1, material_id: 3, first_instance: 0, instance_count: 1, cast_shadow: false },
            DrawBatch { mesh_id: 1, material_id: 5, first_instance: 1, instance_count: 2, cast_shadow: false },
            DrawBatch { mesh_id: 2, material_id: 1, first_instance: 3, instance_count: 2, cast_shadow: true },
        ]
    );
    let (o, b) = build_batches(&vec![]);
    assert!(o.is_empty() && b.is_empty());
}

#[test]
fn buttons_held_track_drags() {
    let mut b = ButtonsHeld::default();
    assert!(!b.apply_button_event(PointerButton::Primary, true, false));
    assert!(b.primary && b.any_button_pressed());
    assert!(!b.apply_button_event(PointerButton::Middle, true, false));
    assert!(!b.apply_button_event(PointerButton::Primary, false, false));
    assert!(b.apply_button_event(PointerButton::Middle, false, false));
    assert_eq!(b, ButtonsHeld::default());
    // consumed by the UI: nothing changes
    assert!(!b.apply_button_event(PointerButton::Secondary, true, true));
    assert!(!b.any_button_pressed());
    // untracked buttons are ignored
    b.set_button(PointerButton::Other(4), true);
    assert!(!b.any_button_pressed());
    assert!(b.apply_button_event(PointerButton::Other(5), false, false));
}

#[test]
fn to_rgba8_r8g8b8a8_passthrough() {
    assert_eq!(to_rgba8(PixelFormat::R8G8B8A8, &[10, 20, 30, 200]), Some(vec![10, 20, 30, 200]));
}

#[test]
fn to_rgba8_r8g8b8_adds_alpha() {
    assert_eq!(to_rgba8(PixelFormat::R8G8B8, &[1, 2, 3]), Some(vec![1, 2, 3, 255]));
}

#[test]
fn to_rgba8_r8g8_pads_blue_alpha() {
    assert_eq!(to_rgba8(PixelFormat::R8G8, &[50, 100]), Some(vec![50, 100, 0, 255]));
}

#[test]
fn to_rgba8_r8_grayscale_expands() {
    assert_eq!(to_rgba8(PixelFormat::R8, &[128]), Some(vec![128, 128, 128, 255]));
}

#[test]
fn to_rgba8_r16_takes_high_byte() {
    // little-endian 16-bit channels: the second byte is the high one
    assert_eq!(to_rgba8(PixelFormat::R16, &[0xAB, 0xCD]), Some(vec![0xCD, 0xCD, 0xCD, 255]));
}

#[test]
fn to_rgba8_wide_channels_and_float_layouts() {
    assert_eq!(
        to_rgba8(PixelFormat::R16G16B16A16, &[1, 2, 3, 4, 5, 6, 7, 8]),
        Some(vec![2, 4, 6, 8])
    );
    assert_eq!(to_rgba8(PixelFormat::R16G16B16, &[1, 2, 3, 4, 5, 6]), Some(vec![2, 4, 6, 255]));
    assert_eq!(to_rgba8(PixelFormat::R16G16, &[1, 2, 3, 4, 9, 8, 7, 6]), Some(vec![2, 4, 0, 255, 8, 6, 0, 255]));
    assert_eq!(to_rgba8(PixelFormat::R8G8B8, &[]), Some(vec![]));
    assert_eq!(to_rgba8(PixelFormat::R32G32B32FLOAT, &[0; 12]), None);
    assert_eq!(to_rgba8(PixelFormat::R32G32B32A32FLOAT, &[0; 16]), None);
}

#[test]
fn uv_sphere_indices_cover_the_grid() {
    let idx = uv_sphere_indices(2, 3);
    assert_eq!(idx.len(), 36);
    assert_eq!(&idx[0..6], &[0, 1, 4, 4, 1, 5]);
    assert_eq!(&idx[30..36], &[6, 7, 10, 10, 7, 11]);
    assert!(idx.iter().all(|&i| i < 12));
    // counts below the minimum are raised to 2 stacks and 3 sectors
    assert_eq!(uv_sphere_indices(0, 1), idx);
    let big = uv_sphere_indices(16, 32);
    assert_eq!(big.len(), 16 * 32 * 6);
    assert!(big.iter().all(|&i| i < 17 * 33));
}

fn names(list: &[&str]) -> Vec<String> {
    list.iter().map(|s| s.to_string()).collect()
}

#[test]
fn active_variant_falls_back_to_default_then_none() {
    assert_eq!(default_active_variant(), "default");
    assert_eq!(default_ibl_tier(), "max");
    assert_eq!(active_variant_index(&names(&["default", "studio"]), "studio"), Some(1));
    assert_eq!(active_variant_index(&names(&["studio", "default"]), "night"), Some(1));
    assert_eq!(active_variant_index(&names(&["studio", "night"]), "day"), None);
    assert_eq!(active_variant_index(&names(&[]), "default"), None);
    assert_eq!(active_variant_index(&names(&["a", "b", "a"]), "a"), Some(0));
}

fn f32_to_f16(x: f32) -> u16 {
    f16_from_f32_bits(x.to_bits())
}

#[test]
fn f16_zero() {
    assert_eq!(f32_to_f16(0.0), 0x0000);
}

#[test]
fn f16_one() {
    assert_eq!(f32_to_f16(1.0), 0x3C00);
}

#[test]
fn f16_two() {
    assert_eq!(f32_to_f16(2.0), 0x4000);
}

#[test]
fn f16_large_clamps_to_inf() {
    assert_eq!(f32_to_f16(1e10), 0x7C00);
}

#[test]
fn f16_negative_one() {
    assert_eq!(f32_to_f16(-1.0), 0xBC00);
}

#[test]
fn f16_small_flushes_and_mantissa_truncates() {
    assert_eq!(f32_to_f16(1e-8), 0x0000);
    assert_eq!(f32_to_f16(-1e-8), 0x8000);
    assert_eq!(f32_to_f16(0.5), 0x3800);
    assert_eq!(f32_to_f16(1.5), 0x3E00);
    assert_eq!(f32_to_f16(f32::INFINITY), 0x7C00);
    assert_eq!(f32_to_f16(f32::NAN), 0x7C00);
    assert_eq!(f32_to_f16(65504.0), 0x7BFF);
}

#[test]
fn push_rgba16f_produces_8_bytes() {
    let mut buf = Vec::new();
    push_rgba16f(&mut buf, 1.0f32.to_bits(), 0.0f32.to_bits(), 0.0f32.to_bits(), 1.0f32.to_bits());
    assert_eq!(buf.len(), 8);
    assert_eq!(u16::from_le_bytes([buf[0], buf[1]]), 0x3C00);
}

#[test]
fn push_rg16f_produces_4_bytes() {
    let mut buf = Vec::new();
    push_rg16f(&mut buf, 1.0f32.to_bits(), 0.0f32.to_bits());
    assert_eq!(buf.len(), 4);
    assert_eq!(u16::from_le_bytes([buf[0], buf[1]]), 0x3C00);
    assert_eq!(u16::from_le_bytes([buf[2], buf[3]]), 0x0000);
}

/// Vertices of the built-in cube: four per face.
const CUBE_VERTEX_COUNT: u32 = 24;

#[test]
fn cube_indices_in_range() {
    let indices = cube_indices();
    assert_eq!(indices.len(), 36);
    for &i in &indices {
        assert!(i < CUBE_VERTEX_COUNT);
    }
}

#[test]
fn cube_faces_are_two_triangles_each() {
    let indices = cube_indices();
    assert_eq!(&indices[..6], &[0, 1, 2, 0, 2, 3]);
    assert_eq!(&indices[30..], &[20, 21, 22, 20, 22, 23]);
}

#[test]
fn hiz_pyramid_sizes() {
    assert_eq!(hiz_mip_count(1920, 1080), 11);
    assert_eq!(hiz_mip_count(1, 1), 1);
    assert_eq!(hiz_mip_count(0, 0), 1);
    assert_eq!(hiz_mip_count(256, 3), 9);
    let wg = hiz_workgroups(1920, 1080);
    assert_eq!(wg.len(), 11);
    assert_eq!(wg[0], (240, 135));
    assert_eq!(wg[1], (120, 68));
    assert_eq!(wg[10], (1, 1));
    assert_eq!(hiz_workgroups(8, 2), vec![(1, 1), (1, 1), (1, 1), (1, 1)]);
}

#[test]
fn hdr_msaa_prefers_four_then_two() {
    assert!(matches!(pick_hdr_main_pass_msaa(true, true, true), 1 | 2 | 4 | 8));
    assert_eq!(pick_hdr_main_pass_msaa(true, true, true), 4);
    assert_eq!(pick_hdr_main_pass_msaa(true, false, true), 2);
    assert_eq!(pick_hdr_main_pass_msaa(true, false, false), 1);
    assert_eq!(pick_hdr_main_pass_msaa(false, true, true), 1);
}

#[test]
fn alpha_modes_have_their_uniform_codes() {
    assert_eq!(alpha_mode_code(AlphaMode::Opaque), 0);
    assert_eq!(alpha_mode_code(AlphaMode::Mask), 1);
    assert_eq!(alpha_mode_code(AlphaMode::Blend), 2);
    assert_eq!(AlphaMode::default(), AlphaMode::Opaque);
    assert_eq!(ShadingModel::default(), ShadingModel::Pbr);
    assert_eq!(TEX_UV_OCCLUSION + 1, MATERIAL_TEX_SLOT_COUNT);
}

#[test]
fn triangle_indices_name_its_three_vertices() {
    assert_eq!(triangle_indices(), vec![0, 1, 2]);
}
