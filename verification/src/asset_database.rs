use vstd::prelude::*;

use slotmap::{DefaultKey, SlotMap};

verus! {

/// The texture identifiers of the database, held in a `slotmap::SlotMap` keyed by
/// `slotmap::DefaultKey`.
#[verifier::external_body]
pub struct TextureSlots {
    slots: SlotMap<DefaultKey, u128>,
}

/// The identifiers a texture slot map holds, by the 64-bit form of their keys
/// (`slotmap::KeyData::as_ffi`).
pub uninterp spec fn texture_slots(map: TextureSlots) -> Map<u64, u128>;

/// An empty slot map, through `slotmap::SlotMap::with_key`. The claim: the map holds
/// nothing (the outside function makes a map with no element).
#[verifier::external_body]
fn empty_texture_slots() -> (slots: TextureSlots)
    ensures
        texture_slots(slots) =~= Map::empty(),
{
    TextureSlots { slots: SlotMap::with_key() }
}

/// The database of imported assets: the identifiers of the textures, by slot.
pub struct AssetDatabase {
    pub textures: TextureSlots,
}

impl AssetDatabase {
    /// A database with no texture.
    pub fn new() -> (db: Self)
        ensures
            texture_slots(db.textures) =~= Map::empty(),
    {
        AssetDatabase { textures: empty_texture_slots() }
    }
}

} // verus!
