use vstd::prelude::*;

verus! {

/// Name of the artifacts folder that holds imported models.
pub const MODELS_FOLDER_NAME: &'static str = "models";

/// Name of the artifacts folder that holds imported textures.
pub const TEXTURES_FOLDER_NAME: &'static str = "textures";

/// Name of the artifacts folder that holds imported materials.
pub const MATERIALS_FOLDER_NAME: &'static str = "materials";

/// Extension of the files that describe an imported asset.
pub const META_FILE_EXTENSION: &'static str = "meta";

/// What a meta file records of an imported asset: its identifier and its name.
pub struct AssetHeader {
    pub uuid: u128,
    pub name: String,
}

/// The content of a meta file, by kind of asset.
pub enum AssetMetadata {
    Model(AssetHeader),
    Texture(AssetHeader),
    Material(AssetHeader),
}

impl AssetMetadata {
    /// The header of the asset, whatever its kind.
    pub open spec fn spec_header(self) -> AssetHeader {
        match self {
            AssetMetadata::Model(h) => h,
            AssetMetadata::Texture(h) => h,
            AssetMetadata::Material(h) => h,
        }
    }
}

} // verus!
