//! Material classification shared by the loaders and the renderer.

use vstd::prelude::*;

verus! {

/// Lighting model of a material.
#[derive(Clone, Copy, Debug, Default, PartialEq, Eq)]
pub enum ShadingModel {
    #[default]
    Pbr,
    Unlit,
}

/// glTF alpha mode.
#[derive(Clone, Copy, Debug, Default, PartialEq, Eq)]
pub enum AlphaMode {
    #[default]
    Opaque,
    Mask,
    Blend,
}

/// Slot of the base-colour texture in a material's per-texture UV transforms.
pub const TEX_UV_ALBEDO: usize = 0;
/// Slot of the normal map.
pub const TEX_UV_NORMAL: usize = 1;
/// Slot of the metallic-roughness texture.
pub const TEX_UV_METALLIC_ROUGHNESS: usize = 2;
/// Slot of the emissive texture.
pub const TEX_UV_EMISSIVE: usize = 3;
/// Slot of the anisotropy texture.
pub const TEX_UV_ANISOTROPY: usize = 4;
/// Slot of the clearcoat texture.
pub const TEX_UV_CLEARCOAT: usize = 5;
/// Slot of the clearcoat roughness texture.
pub const TEX_UV_CLEARCOAT_ROUGHNESS: usize = 6;
/// Slot of the transmission texture (red channel).
pub const TEX_UV_TRANSMISSION: usize = 7;
/// Slot of the specular texture (alpha channel).
pub const TEX_UV_SPECULAR: usize = 8;
/// Slot of the specular colour texture.
pub const TEX_UV_SPECULAR_COLOR: usize = 9;
/// Slot of the volume thickness texture (green channel).
pub const TEX_UV_THICKNESS: usize = 10;
/// Slot of the occlusion texture (red channel).
pub const TEX_UV_OCCLUSION: usize = 11;
/// Number of texture slots of a material.
pub const MATERIAL_TEX_SLOT_COUNT: usize = 12;

/// Code of an alpha mode in the material uniform block: 0 opaque, 1 mask, 2 blend.
pub fn alpha_mode_code(mode: AlphaMode) -> (r: u32)
    ensures
        r == match mode {
            AlphaMode::Opaque => 0u32,
            AlphaMode::Mask => 1u32,
            AlphaMode::Blend => 2u32,
        },
{
    match mode {
        AlphaMode::Opaque => 0,
        AlphaMode::Mask => 1,
        AlphaMode::Blend => 2,
    }
}

} // verus!
