use vstd::prelude::*;

use crate::text::{contains_seq, text_contains};

verus! {

/// How a material is blended.
#[derive(Clone, Copy, PartialEq, Eq, Structural, Debug)]
pub enum MaterialType {
    Opaque,
    Transparent,
}

impl Default for MaterialType {
    fn default() -> (t: Self)
        ensures
            t == MaterialType::Opaque,
    {
        MaterialType::Opaque
    }
}

/// The render state of a material.
#[derive(Clone, Copy, PartialEq, Eq, Structural, Debug)]
pub struct MaterialState {
    pub material_type: MaterialType,
}

/// The texture slots a material samples.
#[derive(Clone, Copy, PartialEq, Eq, Structural, Debug)]
pub struct MaterialTextures {
    pub albedo_texture_index: u32,
    pub metallic_texture_index: u32,
    pub roughness_texture_index: u32,
}

impl MaterialTextures {
    /// The texture slots of a material.
    pub fn new(albedo_texture_index: u32, metallic_texture_index: u32, roughness_texture_index: u32) -> (t: Self)
        ensures
            t.albedo_texture_index == albedo_texture_index,
            t.metallic_texture_index == metallic_texture_index,
            t.roughness_texture_index == roughness_texture_index,
    {
        MaterialTextures { albedo_texture_index, metallic_texture_index, roughness_texture_index }
    }
}

/// The blending of a material whose alpha mode property reads `alpha_mode`.
pub open spec fn spec_material_type(alpha_mode: Seq<char>) -> MaterialType {
    if contains_seq(alpha_mode, "BLEND"@) {
        MaterialType::Transparent
    } else {
        MaterialType::Opaque
    }
}

/// A material is transparent when its alpha mode mentions `BLEND`, opaque otherwise.
pub fn material_type_for_alpha_mode(alpha_mode: &str) -> (t: MaterialType)
    ensures
        t == spec_material_type(alpha_mode@),
{
    let mut material_type = MaterialType::Opaque;
    if text_contains(alpha_mode, "BLEND") {
        material_type = MaterialType::Transparent;
    }
    material_type
}

} // verus!
