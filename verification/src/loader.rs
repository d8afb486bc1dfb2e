use vstd::prelude::*;

use crate::asset_database::AssetDatabase;
use crate::paths::{
    path_extension, path_join, path_views, walked_files_have_extensions, AssetPath, PathModel, WalkEntry,
};
use crate::shared::{
    AssetHeader, AssetMetadata, MATERIALS_FOLDER_NAME, META_FILE_EXTENSION, MODELS_FOLDER_NAME,
    TEXTURES_FOLDER_NAME,
};
use crate::text::text_equals;
use crate::uuid_text::{lemma_uuid_text_injective, uuid_hyphenated, uuid_text};

verus! {

/// The kind of an asset to load.
#[derive(Clone, Copy, PartialEq, Eq, Structural, Debug)]
pub enum AssetType {
    Model,
    Texture,
    Material,
}

/// An asset waiting to be loaded: its identifier, its name and the path of its artifact.
pub struct AssetToLoad {
    pub uuid: u128,
    pub name: String,
    pub path: AssetPath,
}

/// The mathematical content of an [`AssetToLoad`].
#[verifier::ext_equal]
pub struct AssetToLoadModel {
    pub uuid: u128,
    pub name: Seq<char>,
    pub path: PathModel,
}

impl View for AssetToLoad {
    type V = AssetToLoadModel;

    open spec fn view(&self) -> AssetToLoadModel {
        AssetToLoadModel { uuid: self.uuid, name: self.name@, path: self.path@ }
    }
}

/// The contents of a list of assets to load.
pub open spec fn load_views(v: Seq<AssetToLoad>) -> Seq<AssetToLoadModel> {
    Seq::new(v.len(), |i: int| v[i]@)
}

/// The artifacts folder of each kind of asset.
pub open spec fn folder_name(asset_type: AssetType) -> Seq<char> {
    match asset_type {
        AssetType::Model => MODELS_FOLDER_NAME@,
        AssetType::Texture => TEXTURES_FOLDER_NAME@,
        AssetType::Material => MATERIALS_FOLDER_NAME@,
    }
}

/// Where the artifact of an asset lies: under the artifacts folder, in the folder of its
/// kind, in a shard folder named by the first two characters of its identifier's text, in a
/// file named by its name, `_` and its identifier's text.
pub open spec fn resolved_path(asset_type: AssetType, name: Seq<char>, uuid: u128, root: PathModel) -> PathModel {
    path_join(
        path_join(path_join(root, folder_name(asset_type)), uuid_hyphenated(uuid).take(2)),
        name + "_"@ + uuid_hyphenated(uuid),
    )
}

/// The kind of asset a meta file describes.
pub open spec fn metadata_kind(m: AssetMetadata) -> AssetType {
    match m {
        AssetMetadata::Model(_) => AssetType::Model,
        AssetMetadata::Texture(_) => AssetType::Texture,
        AssetMetadata::Material(_) => AssetType::Material,
    }
}

/// The asset to load that a meta file gives.
pub open spec fn to_load(m: AssetMetadata, root: PathModel) -> AssetToLoadModel {
    AssetToLoadModel {
        uuid: m.spec_header().uuid,
        name: m.spec_header().name@,
        path: resolved_path(metadata_kind(m), m.spec_header().name@, m.spec_header().uuid, root),
    }
}

/// The assets to load, in order, that the meta files `metas` of the kind `kind` give.
pub open spec fn resolved_of_kind(metas: Seq<AssetMetadata>, kind: AssetType, root: PathModel) -> Seq<AssetToLoadModel>
    decreases metas.len(),
{
    if metas.len() == 0 {
        Seq::empty()
    } else {
        let earlier = resolved_of_kind(metas.drop_last(), kind, root);
        if metadata_kind(metas.last()) == kind {
            earlier.push(to_load(metas.last(), root))
        } else {
            earlier
        }
    }
}

/// The paths, in order, of the regular files among `entries` whose extension is that of
/// meta files.
pub open spec fn selected_meta_paths(entries: Seq<WalkEntry>) -> Seq<PathModel>
    decreases entries.len(),
{
    if entries.len() == 0 {
        Seq::empty()
    } else {
        let earlier = selected_meta_paths(entries.drop_last());
        let e = entries.last();
        if e.is_file && path_extension(e.path@) == Some(META_FILE_EXTENSION@) {
            earlier.push(e.path@)
        } else {
            earlier
        }
    }
}

/// Collects meta files and turns them into lists of assets to load, by kind.
pub struct Loader {
    pub collected_meta_files: Vec<AssetMetadata>,
    pub models_to_load: Vec<AssetToLoad>,
    pub textures_to_load: Vec<AssetToLoad>,
    pub materials_to_load: Vec<AssetToLoad>,
}

impl Loader {
    /// A loader with nothing collected and nothing to load.
    pub fn new() -> (loader: Self)
        ensures
            loader.collected_meta_files@.len() == 0,
            loader.models_to_load@.len() == 0,
            loader.textures_to_load@.len() == 0,
            loader.materials_to_load@.len() == 0,
    {
        Loader {
            collected_meta_files: Vec::new(),
            models_to_load: Vec::new(),
            textures_to_load: Vec::new(),
            materials_to_load: Vec::new(),
        }
    }

    /// The paths of the meta files met in a walk of the assets folder: the regular files
    /// whose extension is the meta file extension, in the order of the walk.
    pub fn select_meta_files(entries: &Vec<WalkEntry>) -> (paths: Vec<AssetPath>)
        requires
            walked_files_have_extensions(entries@),
        ensures
            path_views(paths@) == selected_meta_paths(entries@),
    {
        let mut paths: Vec<AssetPath> = Vec::new();
        let mut i: usize = 0;
        while i < entries.len()
            invariant
                i <= entries.len(),
                walked_files_have_extensions(entries@),
                path_views(paths@) == selected_meta_paths(entries@.take(i as int)),
            decreases entries.len() - i,
        {
            let entry = &entries[i];
            proof {
                assert(entries@.take(i + 1).drop_last() =~= entries@.take(i as int));
                assert(entries@.take(i + 1).last() == entry);
            }
            if entry.is_file {
                let ext = entry.path.extension();
                match ext {
                    Some(e) => {
                        if text_equals(e.as_str(), META_FILE_EXTENSION) {
                            let ghost before = paths@;
                            paths.push(entry.path.duplicate());
                            assert(path_views(paths@) =~= path_views(before).push(entry.path@));
                        }
                    },
                    None => {
                        assert(entries@[i as int].is_file);
                    },
                }
            }
            i += 1;
        }
        assert(entries@.take(entries.len() as int) =~= entries@);
        paths
    }

    /// Adds the parsed meta files, in order, to those collected.
    pub fn collect_meta_files(&mut self, meta_files: Vec<AssetMetadata>)
        ensures
            final(self).collected_meta_files@ == old(self).collected_meta_files@ + meta_files@,
            final(self).models_to_load == old(self).models_to_load,
            final(self).textures_to_load == old(self).textures_to_load,
            final(self).materials_to_load == old(self).materials_to_load,
    {
        let mut meta_files = meta_files;
        self.collected_meta_files.append(&mut meta_files);
    }

    /// Empties the collected meta files into the lists of assets to load, each to the list
    /// of its kind, in order, with the path of its artifact under `artifacts_folder_path`.
    pub fn resolve_meta_files(&mut self, asset_database: &mut AssetDatabase, artifacts_folder_path: &AssetPath)
        ensures
            final(self).collected_meta_files@.len() == 0,
            load_views(final(self).models_to_load@) == load_views(old(self).models_to_load@) + resolved_of_kind(
                old(self).collected_meta_files@,
                AssetType::Model,
                artifacts_folder_path@,
            ),
            load_views(final(self).textures_to_load@) == load_views(old(self).textures_to_load@) + resolved_of_kind(
                old(self).collected_meta_files@,
                AssetType::Texture,
                artifacts_folder_path@,
            ),
            load_views(final(self).materials_to_load@) == load_views(old(self).materials_to_load@)
                + resolved_of_kind(old(self).collected_meta_files@, AssetType::Material, artifacts_folder_path@),
            *final(asset_database) == *old(asset_database),
    {
        let mut metas: Vec<AssetMetadata> = Vec::new();
        std::mem::swap(&mut metas, &mut self.collected_meta_files);
        let ghost root = artifacts_folder_path@;
        let ghost models0 = load_views(self.models_to_load@);
        let ghost textures0 = load_views(self.textures_to_load@);
        let ghost materials0 = load_views(self.materials_to_load@);
        let mut i: usize = 0;
        while i < metas.len()
            invariant
                i <= metas.len(),
                root == artifacts_folder_path@,
                self.collected_meta_files@.len() == 0,
                load_views(self.models_to_load@) == models0 + resolved_of_kind(
                    metas@.take(i as int),
                    AssetType::Model,
                    root,
                ),
                load_views(self.textures_to_load@) == textures0 + resolved_of_kind(
                    metas@.take(i as int),
                    AssetType::Texture,
                    root,
                ),
                load_views(self.materials_to_load@) == materials0 + resolved_of_kind(
                    metas@.take(i as int),
                    AssetType::Material,
                    root,
                ),
            decreases metas.len() - i,
        {
            let ghost prefix = metas@.take(i + 1);
            proof {
                assert(prefix.drop_last() =~= metas@.take(i as int));
                assert(prefix.last() == metas@[i as int]);
            }
            let ghost before_models = self.models_to_load@;
            let ghost before_textures = self.textures_to_load@;
            let ghost before_materials = self.materials_to_load@;
            match &metas[i] {
                AssetMetadata::Model(header) => {
                    let item = Self::to_load(AssetType::Model, header, artifacts_folder_path);
                    self.models_to_load.push(item);
                    assert(load_views(self.models_to_load@) =~= load_views(before_models).push(item@));
                },
                AssetMetadata::Texture(header) => {
                    let item = Self::to_load(AssetType::Texture, header, artifacts_folder_path);
                    self.textures_to_load.push(item);
                    assert(load_views(self.textures_to_load@) =~= load_views(before_textures).push(item@));
                },
                AssetMetadata::Material(header) => {
                    let item = Self::to_load(AssetType::Material, header, artifacts_folder_path);
                    self.materials_to_load.push(item);
                    assert(load_views(self.materials_to_load@) =~= load_views(before_materials).push(
                        item@,
                    ));
                },
            }
            i += 1;
        }
        assert(metas@.take(metas.len() as int) =~= metas@);
    }

    /// The asset to load described by `header`, of kind `asset_type`.
    fn to_load(asset_type: AssetType, header: &AssetHeader, artifacts_folder_path: &AssetPath) -> (item: AssetToLoad)
        ensures
            item@ == (AssetToLoadModel {
                uuid: header.uuid,
                name: header.name@,
                path: resolved_path(asset_type, header.name@, header.uuid, artifacts_folder_path@),
            }),
    {
        AssetToLoad {
            uuid: header.uuid,
            name: header.name.clone(),
            path: Self::resolve_path(asset_type, header.name.as_str(), header.uuid, artifacts_folder_path),
        }
    }

    /// Loads the resolved assets into the database. Nothing is loaded yet: neither the
    /// loader nor the database changes.
    pub fn load_assets(&mut self, asset_database: &mut AssetDatabase)
        ensures
            *final(self) == *old(self),
            *final(asset_database) == *old(asset_database),
    {
    }

    /// The path of the artifact of an asset (see [`resolved_path`]).
    pub fn resolve_path(asset_type: AssetType, name: &str, uuid: u128, artifacts_folder_path: &AssetPath) -> (path: AssetPath)
        ensures
            path@ == resolved_path(asset_type, name@, uuid, artifacts_folder_path@),
    {
        let mut path_buf = artifacts_folder_path.duplicate();
        match asset_type {
            AssetType::Model => {
                path_buf.push(MODELS_FOLDER_NAME.to_owned());
            },
            AssetType::Texture => {
                path_buf.push(TEXTURES_FOLDER_NAME.to_owned());
            },
            AssetType::Material => {
                path_buf.push(MATERIALS_FOLDER_NAME.to_owned());
            },
        }
        let uuid_str = uuid_text(uuid);
        let shard_folder = uuid_str.as_str().substring_char(0, 2);
        path_buf.push(shard_folder.to_owned());
        let mut file_name = name.to_owned();
        file_name.append("_");
        file_name.append(uuid_str.as_str());
        path_buf.push(file_name);
        path_buf
    }
}

/// Resolving meta files sends each of them to exactly one list: the lists of the three
/// kinds together gain as many assets as there were meta files.
pub proof fn lemma_resolved_kinds_partition(metas: Seq<AssetMetadata>, root: PathModel)
    ensures
        resolved_of_kind(metas, AssetType::Model, root).len() + resolved_of_kind(metas, AssetType::Texture, root).len()
            + resolved_of_kind(metas, AssetType::Material, root).len() == metas.len(),
    decreases metas.len(),
{
    if metas.len() > 0 {
        lemma_resolved_kinds_partition(metas.drop_last(), root);
    }
}

/// Assets with distinct identifiers never share an artifact path, whatever their kinds
/// and names.
pub proof fn lemma_distinct_uuids_distinct_paths(
    t1: AssetType,
    n1: Seq<char>,
    u1: u128,
    t2: AssetType,
    n2: Seq<char>,
    u2: u128,
    root: PathModel,
)
    requires
        u1 != u2,
    ensures
        resolved_path(t1, n1, u1, root) != resolved_path(t2, n2, u2, root),
{
    let p1 = resolved_path(t1, n1, u1, root);
    let p2 = resolved_path(t2, n2, u2, root);
    if p1 == p2 {
        let f1 = n1 + "_"@ + uuid_hyphenated(u1);
        let f2 = n2 + "_"@ + uuid_hyphenated(u2);
        assert(p1.segments.last() == f1);
        assert(p2.segments.last() == f2);
        assert(f1.len() == f2.len());
        assert(uuid_hyphenated(u1) =~= f1.subrange(f1.len() - 36, f1.len() as int));
        assert(uuid_hyphenated(u2) =~= f2.subrange(f2.len() - 36, f2.len() as int));
        lemma_uuid_text_injective(u1, u2);
    }
}

} // verus!
