use vstd::prelude::*;

use crate::paths::{
    lemma_extension_has_no_dot, path_extension, path_file_name, path_join, path_views,
    walked_files_have_extensions, AssetPath, PathModel, WalkEntry,
};
use crate::serializers::{four_spaces, pretty_depth_limit, pretty_indentor, pretty_other_options_default, Serializers};
use crate::text::{ends_with_seq, text_ends_with, text_equals};

verus! {

/// What a model's meta file records: its name, the path of its source file and the
/// identifiers of its textures.
pub struct ModelAssetMetadata {
    pub name: String,
    pub path_buf: AssetPath,
    pub textures: Vec<String>,
}

/// What a texture's meta file records.
pub struct TextureAssetMetadata {
    pub uuid: String,
    pub name: String,
    pub path_buf: Option<AssetPath>,
}

/// What a material's meta file records.
pub struct MaterialAssetMetadata {
    pub uuid: String,
    pub name: Option<String>,
    pub path_buf: Option<AssetPath>,
}

/// The content of a meta file found in the assets folder.
pub enum AssetMetadata {
    Model(ModelAssetMetadata),
    Texture(TextureAssetMetadata),
}

/// An asset source file: its file name and its path.
pub struct BaseAssetEntry {
    pub name: String,
    pub path_buf: AssetPath,
}

/// A model source file.
pub struct ModelEntry {
    pub entry: BaseAssetEntry,
}

/// A source file to import, by kind.
pub enum AssetEntry {
    Model(ModelEntry),
}

/// The mathematical content of an [`AssetEntry`]: its name and its path.
#[verifier::ext_equal]
pub struct EntryModel {
    pub name: Seq<char>,
    pub path: PathModel,
}

impl View for AssetEntry {
    type V = EntryModel;

    open spec fn view(&self) -> EntryModel {
        match self {
            AssetEntry::Model(m) => EntryModel { name: m.entry.name@, path: m.entry.path_buf@ },
        }
    }
}

impl View for ModelEntry {
    type V = EntryModel;

    open spec fn view(&self) -> EntryModel {
        EntryModel { name: self.entry.name@, path: self.entry.path_buf@ }
    }
}

/// The contents of a list of entries.
pub open spec fn entry_views(v: Seq<AssetEntry>) -> Seq<EntryModel> {
    Seq::new(v.len(), |i: int| v[i]@)
}

/// The contents of a list of model entries.
pub open spec fn model_entry_views(v: Seq<ModelEntry>) -> Seq<EntryModel> {
    Seq::new(v.len(), |i: int| v[i]@)
}

/// The folder of the assets for the program at `exe`: three levels up, then `assets`.
pub open spec fn assets_folder_for(exe: PathModel) -> PathModel {
    let kept = if exe.segments.len() >= 3 { exe.segments.len() - 3 } else { 0 };
    path_join(PathModel { has_root: exe.has_root, segments: exe.segments.take(kept) }, "assets"@)
}

/// An extension that marks a meta file in the assets folder.
pub open spec fn is_meta_extension(ext: Seq<char>) -> bool {
    ends_with_seq(ext, ".meta"@)
}

/// An extension of a model source file.
pub open spec fn is_model_extension(ext: Seq<char>) -> bool {
    ext == "glb"@ || ext == "gltf"@ || ext == "obj"@ || ext == "fbx"@
}

/// Whether a walked entry is a regular file with the given meta-ness.
pub open spec fn is_file_of_kind(e: WalkEntry, meta: bool) -> bool {
    e.is_file && match path_extension(e.path@) {
        Some(ext) => is_meta_extension(ext) == meta,
        None => false,
    }
}

/// The paths, in order, of the regular files among `entries` that are meta files
/// (`meta`) or asset sources (`!meta`).
pub open spec fn file_paths_of_kind(entries: Seq<WalkEntry>, meta: bool) -> Seq<PathModel>
    decreases entries.len(),
{
    if entries.len() == 0 {
        Seq::empty()
    } else {
        let earlier = file_paths_of_kind(entries.drop_last(), meta);
        if is_file_of_kind(entries.last(), meta) {
            earlier.push(entries.last().path@)
        } else {
            earlier
        }
    }
}

/// Every path of `paths` has a file name and an extension.
pub open spec fn names_and_extensions(paths: Seq<PathModel>) -> bool {
    forall|i: int| 0 <= i < paths.len() ==> #[trigger] path_extension(paths[i]).is_some()
}

/// The entries, in order, made of the model source files among `paths`.
pub open spec fn model_entries_of(paths: Seq<PathModel>) -> Seq<EntryModel>
    decreases paths.len(),
{
    if paths.len() == 0 {
        Seq::empty()
    } else {
        let earlier = model_entries_of(paths.drop_last());
        let p = paths.last();
        if is_model_extension(path_extension(p).unwrap()) {
            earlier.push(EntryModel { name: path_file_name(p).unwrap(), path: p })
        } else {
            earlier
        }
    }
}

/// The meta file `m` describes the entry `e`: a model meta file with its name and path.
pub open spec fn meta_matches(m: AssetMetadata, e: EntryModel) -> bool {
    match m {
        AssetMetadata::Model(model) => model.name@ == e.name && model.path_buf@ == e.path,
        AssetMetadata::Texture(_) => false,
    }
}

/// Some meta file describes the entry `e`.
pub open spec fn is_serialized(metas: Seq<AssetMetadata>, e: EntryModel) -> bool {
    exists|k: int| 0 <= k < metas.len() && meta_matches(#[trigger] metas[k], e)
}

/// Looking for `e` among `metas` in order meets a texture meta file before a match.
pub open spec fn meets_texture(metas: Seq<AssetMetadata>, e: EntryModel) -> bool {
    exists|j: int|
        0 <= j < metas.len() && (#[trigger] metas[j] is Texture) && forall|k: int|
            0 <= k < j ==> !meta_matches(#[trigger] metas[k], e)
}

/// The entries of `entries`, in order, that no meta file describes.
pub open spec fn unserialized_entries(entries: Seq<EntryModel>, metas: Seq<AssetMetadata>) -> Seq<EntryModel>
    decreases entries.len(),
{
    if entries.len() == 0 {
        Seq::empty()
    } else {
        let earlier = unserialized_entries(entries.drop_last(), metas);
        if is_serialized(metas, entries.last()) {
            earlier
        } else {
            earlier.push(entries.last())
        }
    }
}

impl BaseAssetEntry {
    /// An entry of its own with the same name and path.
    pub fn duplicate(&self) -> (e: BaseAssetEntry)
        ensures
            e.name@ == self.name@,
            e.path_buf@ == self.path_buf@,
    {
        BaseAssetEntry { name: self.name.clone(), path_buf: self.path_buf.duplicate() }
    }
}

/// Finds the asset source files and the meta files of the assets folder and decides which
/// sources still need importing.
pub struct Importer {
    pub asset_folder_path_buffer: AssetPath,
    pub assets_to_serialize: Vec<AssetPath>,
    pub serializers: Serializers,
    pub meta_files: Vec<AssetMetadata>,
    pub assets_entries: Vec<AssetEntry>,
}

impl Importer {
    /// An importer for the program at `exe_path`, with nothing found yet.
    pub fn new(exe_path: AssetPath) -> (importer: Self)
        ensures
            importer.asset_folder_path_buffer@ == assets_folder_for(exe_path@),
            importer.assets_to_serialize@.len() == 0,
            importer.meta_files@.len() == 0,
            importer.assets_entries@.len() == 0,
            pretty_depth_limit(importer.serializers.ron_pretty_config) == 2,
            pretty_indentor(importer.serializers.ron_pretty_config) == four_spaces(),
            pretty_other_options_default(importer.serializers.ron_pretty_config),
    {
        Importer {
            asset_folder_path_buffer: Self::get_assets_folder_path_buffer(exe_path),
            assets_to_serialize: Vec::new(),
            serializers: Serializers::new(),
            meta_files: Vec::new(),
            assets_entries: Vec::new(),
        }
    }

    /// The assets folder of the program at `exe_path` (see [`assets_folder_for`]).
    pub fn get_assets_folder_path_buffer(exe_path: AssetPath) -> (path: AssetPath)
        ensures
            path@ == assets_folder_for(exe_path@),
    {
        let mut exe_path = exe_path;
        let ghost start = exe_path@;
        exe_path.pop();
        exe_path.pop();
        exe_path.pop();
        proof {
            let n = start.segments.len();
            if n >= 3 {
                assert(exe_path@.segments =~= start.segments.take(n - 3));
            } else {
                assert(exe_path@.segments =~= start.segments.take(0));
            }
        }
        exe_path.push("assets".to_owned());
        exe_path
    }

    /// Sorts the regular files of a walk of the assets folder: asset sources become the
    /// assets to serialize; the paths of the meta files are returned, in order, to be read
    /// and added with [`Importer::add_meta_file`]. Both lists start over.
    pub fn collect_assets_to_serialize(&mut self, entries: &Vec<WalkEntry>) -> (meta_paths: Vec<AssetPath>)
        requires
            walked_files_have_extensions(entries@),
        ensures
            path_views(meta_paths@) == file_paths_of_kind(entries@, true),
            path_views(final(self).assets_to_serialize@) == file_paths_of_kind(entries@, false),
            final(self).meta_files@.len() == 0,
            final(self).asset_folder_path_buffer == old(self).asset_folder_path_buffer,
            final(self).assets_entries == old(self).assets_entries,
            final(self).serializers == old(self).serializers,
    {
        self.assets_to_serialize.clear();
        self.meta_files.clear();
        let mut meta_paths: Vec<AssetPath> = Vec::new();
        let mut i: usize = 0;
        assert(path_views(self.assets_to_serialize@) =~= Seq::<PathModel>::empty());
        while i < entries.len()
            invariant
                i <= entries.len(),
                walked_files_have_extensions(entries@),
                self.meta_files@.len() == 0,
                self.asset_folder_path_buffer == old(self).asset_folder_path_buffer,
                self.assets_entries == old(self).assets_entries,
                self.serializers == old(self).serializers,
                path_views(meta_paths@) == file_paths_of_kind(entries@.take(i as int), true),
                path_views(self.assets_to_serialize@) == file_paths_of_kind(entries@.take(i as int), false),
            decreases entries.len() - i,
        {
            let entry = &entries[i];
            proof {
                assert(entries@.take(i + 1).drop_last() =~= entries@.take(i as int));
                assert(entries@.take(i + 1).last() == entry);
            }
            if entry.is_file {
                match entry.path.extension() {
                    Some(ext) => {
                        if text_ends_with(ext.as_str(), ".meta") {
                            let ghost before = meta_paths@;
                            meta_paths.push(entry.path.duplicate());
                            assert(path_views(meta_paths@) =~= path_views(before).push(entry.path@));
                        } else {
                            let ghost before = self.assets_to_serialize@;
                            self.assets_to_serialize.push(entry.path.duplicate());
                            assert(path_views(self.assets_to_serialize@) =~= path_views(before).push(
                                entry.path@,
                            ));
                        }
                    },
                    None => {
                        assert(entries@[i as int].is_file);
                    },
                }
            }
            i += 1;
        }
        assert(entries@.take(entries.len() as int) =~= entries@);
        meta_paths
    }

    /// Adds a meta file read from the assets folder.
    pub fn add_meta_file(&mut self, meta_file: AssetMetadata)
        ensures
            final(self).meta_files@ == old(self).meta_files@.push(meta_file),
            final(self).assets_to_serialize == old(self).assets_to_serialize,
            final(self).assets_entries == old(self).assets_entries,
            final(self).asset_folder_path_buffer == old(self).asset_folder_path_buffer,
            final(self).serializers == old(self).serializers,
    {
        self.meta_files.push(meta_file);
    }

    /// Turns the assets to serialize into entries: each model source file (extension
    /// `glb`, `gltf`, `obj` or `fbx`) becomes a model entry named by its file name; other
    /// sources are dropped. The assets to serialize are emptied; the entries start over.
    pub fn resolve_assets_entries(&mut self)
        requires
            names_and_extensions(path_views(old(self).assets_to_serialize@)),
        ensures
            final(self).assets_to_serialize@.len() == 0,
            entry_views(final(self).assets_entries@) == model_entries_of(
                path_views(old(self).assets_to_serialize@),
            ),
            forall|i: int|
                0 <= i < old(self).assets_to_serialize@.len() && ({
                    let ext = path_extension(path_views(old(self).assets_to_serialize@)[i]).unwrap();
                    ext == "glb"@ || ext == "gltf"@ || ext == "obj"@ || ext == "fbx"@
                }) ==> entry_views(final(self).assets_entries@).contains(
                    EntryModel {
                        name: path_file_name(path_views(old(self).assets_to_serialize@)[i]).unwrap(),
                        path: #[trigger] path_views(old(self).assets_to_serialize@)[i],
                    },
                ),
            final(self).meta_files == old(self).meta_files,
            final(self).asset_folder_path_buffer == old(self).asset_folder_path_buffer,
            final(self).serializers == old(self).serializers,
    {
        let mut to_resolve: Vec<AssetPath> = Vec::new();
        std::mem::swap(&mut to_resolve, &mut self.assets_to_serialize);
        let ghost paths = path_views(to_resolve@);
        let mut asset_entries: Vec<AssetEntry> = Vec::new();
        let mut i: usize = 0;
        while i < to_resolve.len()
            invariant
                i <= to_resolve.len(),
                paths == path_views(to_resolve@),
                names_and_extensions(paths),
                entry_views(asset_entries@) == model_entries_of(paths.take(i as int)),
            decreases to_resolve.len() - i,
        {
            let asset_to_resolve = &to_resolve[i];
            proof {
                assert(paths.take(i + 1).drop_last() =~= paths.take(i as int));
                assert(paths.take(i + 1).last() == asset_to_resolve@);
                assert(path_extension(paths[i as int]).is_some());
            }
            let file_name = match asset_to_resolve.file_name() {
                Some(n) => n,
                None => {
                    return;
                },
            };
            let ext = match asset_to_resolve.extension() {
                Some(e) => e,
                None => {
                    return;
                },
            };
            let e = ext.as_str();
            if text_equals(e, "glb") || text_equals(e, "gltf") || text_equals(e, "obj") || text_equals(e, "fbx") {
                let ghost before = asset_entries@;
                asset_entries.push(
                    AssetEntry::Model(ModelEntry { entry: BaseAssetEntry { name: file_name, path_buf: asset_to_resolve.duplicate() } }),
                );
                assert(entry_views(asset_entries@) =~= entry_views(before).push(
                    EntryModel { name: path_file_name(asset_to_resolve@).unwrap(), path: asset_to_resolve@ },
                ));
            }
            i += 1;
        }
        assert(paths.take(to_resolve.len() as int) =~= paths);
        proof {
            lemma_every_model_source_becomes_an_entry(paths);
        }
        self.assets_entries = asset_entries;
    }

    /// Whether some meta file describes the entry of name `name` and path `path`.
    fn is_serialized_entry(&self, name: &String, path: &AssetPath) -> (found: bool)
        requires
            !meets_texture(self.meta_files@, EntryModel { name: name@, path: path@ }),
        ensures
            found == is_serialized(self.meta_files@, EntryModel { name: name@, path: path@ }),
    {
        let ghost e = EntryModel { name: name@, path: path@ };
        let mut k: usize = 0;
        while k < self.meta_files.len()
            invariant
                k <= self.meta_files.len(),
                e == (EntryModel { name: name@, path: path@ }),
                !meets_texture(self.meta_files@, e),
                forall|q: int| 0 <= q < k ==> !meta_matches(#[trigger] self.meta_files@[q], e),
            decreases self.meta_files.len() - k,
        {
            match &self.meta_files[k] {
                AssetMetadata::Model(model) => {
                    if text_equals(name.as_str(), model.name.as_str()) && path.same_path(&model.path_buf) {
                        assert(meta_matches(self.meta_files@[k as int], e));
                        return true;
                    }
                },
                AssetMetadata::Texture(_) => {
                    proof {
                        assert(self.meta_files@[k as int] is Texture);
                        assert(meets_texture(self.meta_files@, e));
                    }
                    return false;
                },
            }
            k += 1;
        }
        false
    }

    /// Keeps only the entries that no meta file describes (by the same name and path).
    pub fn check_if_asset_is_serialized(&mut self)
        requires
            forall|i: int|
                0 <= i < old(self).assets_entries@.len() ==> !meets_texture(
                    old(self).meta_files@,
                    #[trigger] old(self).assets_entries@[i]@,
                ),
        ensures
            entry_views(final(self).assets_entries@) == unserialized_entries(
                entry_views(old(self).assets_entries@),
                old(self).meta_files@,
            ),
            forall|k: int, j: int|
                #![trigger final(self).assets_entries@[k], old(self).meta_files@[j]]
                0 <= k < final(self).assets_entries@.len() && 0 <= j < old(self).meta_files@.len()
                    && old(self).meta_files@[j] is Model ==> !(old(self).meta_files@[j]->Model_0.name@
                    == final(self).assets_entries@[k]@.name && old(self).meta_files@[j]->Model_0.path_buf@
                    == final(self).assets_entries@[k]@.path),
            forall|i: int|
                0 <= i < old(self).assets_entries@.len() && (forall|j: int|
                    0 <= j < old(self).meta_files@.len() && (#[trigger] old(self).meta_files@[j]) is Model ==> !(
                    old(self).meta_files@[j]->Model_0.name@ == old(self).assets_entries@[i]@.name
                        && old(self).meta_files@[j]->Model_0.path_buf@ == old(self).assets_entries@[i]@.path))
                    ==> entry_views(final(self).assets_entries@).contains(#[trigger] old(self).assets_entries@[i]@),
            final(self).meta_files == old(self).meta_files,
            final(self).assets_to_serialize == old(self).assets_to_serialize,
            final(self).asset_folder_path_buffer == old(self).asset_folder_path_buffer,
            final(self).serializers == old(self).serializers,
    {
        let mut entries: Vec<AssetEntry> = Vec::new();
        std::mem::swap(&mut entries, &mut self.assets_entries);
        let ghost views = entry_views(entries@);
        let mut kept: Vec<AssetEntry> = Vec::new();
        let mut i: usize = 0;
        while i < entries.len()
            invariant
                i <= entries.len(),
                views == entry_views(entries@),
                self.meta_files == old(self).meta_files,
                self.assets_to_serialize == old(self).assets_to_serialize,
                self.asset_folder_path_buffer == old(self).asset_folder_path_buffer,
                self.serializers == old(self).serializers,
                forall|j: int| 0 <= j < entries@.len() ==> !meets_texture(self.meta_files@, #[trigger] entries@[j]@),
                entry_views(kept@) == unserialized_entries(views.take(i as int), self.meta_files@),
            decreases entries.len() - i,
        {
            proof {
                assert(views.take(i + 1).drop_last() =~= views.take(i as int));
                assert(views.take(i + 1).last() == entries@[i as int]@);
            }
            let (name, path) = match &entries[i] {
                AssetEntry::Model(model_entry) => (&model_entry.entry.name, &model_entry.entry.path_buf),
            };
            assert(entries@[i as int]@ == (EntryModel { name: name@, path: path@ }));
            if !self.is_serialized_entry(name, path) {
                let ghost before = kept@;
                let copy = match &entries[i] {
                    AssetEntry::Model(model_entry) => AssetEntry::Model(ModelEntry { entry: model_entry.entry.duplicate() }),
                };
                kept.push(copy);
                assert(entry_views(kept@) =~= entry_views(before).push(entries@[i as int]@));
            }
            i += 1;
        }
        assert(views.take(entries.len() as int) =~= views);
        proof {
            lemma_kept_entries_are_those_without_meta_file(views, self.meta_files@);
            let r = unserialized_entries(views, self.meta_files@);
            assert forall|k: int| 0 <= k < kept@.len() implies kept@[k]@ == r[k] by {
                assert(entry_views(kept@)[k] == kept@[k]@);
            }
            assert forall|i: int| 0 <= i < entries@.len() implies entries@[i]@ == views[i] by {
                assert(entry_views(entries@)[i] == entries@[i]@);
            }
            let metas = self.meta_files@;
            assert forall|k: int, j: int|
                #![trigger kept@[k], metas[j]]
                0 <= k < kept@.len() && 0 <= j < metas.len() && metas[j] is Model implies !(metas[j]->Model_0.name@
                == kept@[k]@.name && metas[j]->Model_0.path_buf@ == kept@[k]@.path) by {
                assert(kept@[k]@ == r[k]);
                assert(0 <= k < r.len() && 0 <= j < metas.len() && metas[j] is Model);
            }
            assert forall|i: int|
                0 <= i < entries@.len() && (forall|j: int|
                    0 <= j < metas.len() && (#[trigger] metas[j]) is Model ==> !(metas[j]->Model_0.name@
                        == entries@[i]@.name && metas[j]->Model_0.path_buf@ == entries@[i]@.path)) implies entry_views(
                kept@,
            ).contains(#[trigger] entries@[i]@) by {
                assert(entries@[i]@ == views[i]);
                assert(r.contains(views[i]));
            }
        }
        self.assets_entries = kept;
    }

    /// Whether every asset to serialize has a file name with an extension, as
    /// [`Importer::resolve_assets_entries`] needs.
    pub fn assets_have_names_and_extensions(&self) -> (all: bool)
        ensures
            all == names_and_extensions(path_views(self.assets_to_serialize@)),
    {
        let ghost paths = path_views(self.assets_to_serialize@);
        let mut i: usize = 0;
        while i < self.assets_to_serialize.len()
            invariant
                i <= self.assets_to_serialize.len(),
                paths == path_views(self.assets_to_serialize@),
                forall|q: int| 0 <= q < i ==> #[trigger] path_extension(paths[q]).is_some(),
            decreases self.assets_to_serialize.len() - i,
        {
            if self.assets_to_serialize[i].extension().is_none() {
                assert(path_extension(paths[i as int]).is_none());
                return false;
            }
            i += 1;
        }
        true
    }

    /// Whether looking for the entry of name `name` and path `path` among the meta files
    /// meets a texture meta file before a match.
    fn meets_texture_for(&self, name: &String, path: &AssetPath) -> (met: bool)
        ensures
            met == meets_texture(self.meta_files@, EntryModel { name: name@, path: path@ }),
    {
        let ghost e = EntryModel { name: name@, path: path@ };
        let ghost metas = self.meta_files@;
        let mut k: usize = 0;
        while k < self.meta_files.len()
            invariant
                k <= self.meta_files.len(),
                metas == self.meta_files@,
                e == (EntryModel { name: name@, path: path@ }),
                forall|q: int| 0 <= q < k ==> !meta_matches(#[trigger] metas[q], e) && !(metas[q] is Texture),
            decreases self.meta_files.len() - k,
        {
            match &self.meta_files[k] {
                AssetMetadata::Model(model) => {
                    if text_equals(name.as_str(), model.name.as_str()) && path.same_path(&model.path_buf) {
                        proof {
                            assert(meta_matches(metas[k as int], e));
                            assert forall|j: int| 0 <= j < metas.len() && (#[trigger] metas[j] is Texture) implies !(forall|q: int|
                                0 <= q < j ==> !meta_matches(#[trigger] metas[q], e)) by {
                                assert(j > k);
                                assert(meta_matches(metas[k as int], e));
                            }
                        }
                        return false;
                    }
                },
                AssetMetadata::Texture(_) => {
                    proof {
                        assert(metas[k as int] is Texture);
                        assert(forall|q: int| 0 <= q < k ==> !meta_matches(#[trigger] metas[q], e));
                    }
                    return true;
                },
            }
            k += 1;
        }
        false
    }

    /// Whether looking for some entry among the meta files meets a texture meta file before
    /// a match, which [`Importer::check_if_asset_is_serialized`] does not handle.
    pub fn reaches_texture_meta(&self) -> (reached: bool)
        ensures
            reached == exists|i: int|
                0 <= i < self.assets_entries@.len() && meets_texture(self.meta_files@, #[trigger] self.assets_entries@[i]@),
    {
        let mut i: usize = 0;
        while i < self.assets_entries.len()
            invariant
                i <= self.assets_entries.len(),
                forall|q: int| 0 <= q < i ==> !meets_texture(self.meta_files@, #[trigger] self.assets_entries@[q]@),
            decreases self.assets_entries.len() - i,
        {
            let (name, path) = match &self.assets_entries[i] {
                AssetEntry::Model(model_entry) => (&model_entry.entry.name, &model_entry.entry.path_buf),
            };
            assert(self.assets_entries@[i as int]@ == (EntryModel { name: name@, path: path@ }));
            if self.meets_texture_for(name, path) {
                return true;
            }
            i += 1;
        }
        false
    }

    /// The model entries left to import, in order.
    pub fn unserialized_models(&self) -> (models: Vec<ModelEntry>)
        ensures
            model_entry_views(models@) == entry_views(self.assets_entries@),
    {
        let mut models: Vec<ModelEntry> = Vec::new();
        let mut i: usize = 0;
        while i < self.assets_entries.len()
            invariant
                i <= self.assets_entries.len(),
                model_entry_views(models@) == entry_views(self.assets_entries@).take(i as int),
            decreases self.assets_entries.len() - i,
        {
            let ghost before = models@;
            let copy = match &self.assets_entries[i] {
                AssetEntry::Model(model_entry) => ModelEntry { entry: model_entry.entry.duplicate() },
            };
            assert(copy@ == self.assets_entries@[i as int]@);
            models.push(copy);
            assert(model_entry_views(models@) =~= model_entry_views(before).push(copy@));
            assert(model_entry_views(models@) =~= entry_views(self.assets_entries@).take(i + 1));
            i += 1;
        }
        assert(entry_views(self.assets_entries@).take(self.assets_entries.len() as int) =~= entry_views(
            self.assets_entries@,
        ));
        models
    }
}

/// Number of regular files among `entries`.
pub open spec fn file_count(entries: Seq<WalkEntry>) -> nat
    decreases entries.len(),
{
    if entries.len() == 0 {
        0
    } else {
        file_count(entries.drop_last()) + if entries.last().is_file {
            1nat
        } else {
            0nat
        }
    }
}

/// Sorting a walk sends each regular file to exactly one of the two lists, meta files or
/// assets to serialize.
pub proof fn lemma_collect_partition(entries: Seq<WalkEntry>)
    requires
        walked_files_have_extensions(entries),
    ensures
        file_paths_of_kind(entries, true).len() + file_paths_of_kind(entries, false).len() == file_count(entries),
    decreases entries.len(),
{
    if entries.len() > 0 {
        let rest = entries.drop_last();
        assert(walked_files_have_extensions(rest)) by {
            assert forall|i: int| 0 <= i < rest.len() && #[trigger] rest[i].is_file implies path_extension(
                rest[i].path@,
            ).is_some() by {
                assert(rest[i] == entries[i]);
            }
        }
        lemma_collect_partition(rest);
        if entries.last().is_file {
            assert(entries[entries.len() - 1].is_file);
        }
    }
}

/// Every entry made from asset sources is a model source named by its file name.
pub proof fn lemma_model_entries_are_models(paths: Seq<PathModel>)
    requires
        names_and_extensions(paths),
    ensures
        forall|k: int|
            0 <= k < model_entries_of(paths).len() ==> {
                &&& is_model_extension(path_extension((#[trigger] model_entries_of(paths)[k]).path).unwrap())
                &&& path_file_name(model_entries_of(paths)[k].path) == Some(model_entries_of(paths)[k].name)
            },
    decreases paths.len(),
{
    if paths.len() > 0 {
        let rest = paths.drop_last();
        assert(names_and_extensions(rest)) by {
            assert forall|i: int| 0 <= i < rest.len() implies #[trigger] path_extension(rest[i]).is_some() by {
                assert(rest[i] == paths[i]);
            }
        }
        lemma_model_entries_are_models(rest);
        assert(path_extension(paths[paths.len() - 1]).is_some());
    }
}

/// The entries kept by [`Importer::check_if_asset_is_serialized`] are exactly those that no
/// meta file describes: each kept entry is undescribed, and each undescribed entry is kept.
pub proof fn lemma_unserialized_exact(entries: Seq<EntryModel>, metas: Seq<AssetMetadata>)
    ensures
        forall|k: int|
            0 <= k < unserialized_entries(entries, metas).len() ==> !is_serialized(
                metas,
                #[trigger] unserialized_entries(entries, metas)[k],
            ),
        forall|i: int|
            0 <= i < entries.len() && !is_serialized(metas, #[trigger] entries[i]) ==> unserialized_entries(
                entries,
                metas,
            ).contains(entries[i]),
    decreases entries.len(),
{
    if entries.len() > 0 {
        let rest = entries.drop_last();
        lemma_unserialized_exact(rest, metas);
        let r = unserialized_entries(entries, metas);
        let rr = unserialized_entries(rest, metas);
        assert forall|i: int| 0 <= i < entries.len() && !is_serialized(metas, #[trigger] entries[i]) implies r.contains(
            entries[i],
        ) by {
            if i < entries.len() - 1 {
                assert(rest[i] == entries[i]);
                let q = choose|q: int| 0 <= q < rr.len() && rr[q] == entries[i];
                assert(r[q] == rr[q]);
            } else {
                assert(r[r.len() - 1] == entries[i]);
            }
        }
    }
}

/// Keeping the undescribed entries a second time keeps them all.
pub proof fn lemma_unserialized_idempotent(entries: Seq<EntryModel>, metas: Seq<AssetMetadata>)
    ensures
        unserialized_entries(unserialized_entries(entries, metas), metas) == unserialized_entries(entries, metas),
    decreases entries.len(),
{
    if entries.len() > 0 {
        let rest = entries.drop_last();
        lemma_unserialized_idempotent(rest, metas);
        let rr = unserialized_entries(rest, metas);
        if !is_serialized(metas, entries.last()) {
            let r = rr.push(entries.last());
            assert(r.drop_last() =~= rr);
        }
    }
}

/// No extension ends with `.meta`, since an extension holds no `.`: sorting a walk never
/// finds a meta file, and every regular file with an extension becomes an asset to
/// serialize.
pub proof fn lemma_importer_finds_no_meta_files(entries: Seq<WalkEntry>)
    ensures
        file_paths_of_kind(entries, true).len() == 0,
    decreases entries.len(),
{
    if entries.len() > 0 {
        lemma_importer_finds_no_meta_files(entries.drop_last());
        let p = entries.last().path@;
        lemma_extension_has_no_dot(p);
        if let Some(ext) = path_extension(p) {
            reveal_strlit(".meta");
            assert(".meta"@.len() == 5 && ".meta"@[0] == '.');
            if is_meta_extension(ext) {
                let at = ext.len() - 5;
                assert(ext.subrange(at, ext.len() as int) == ".meta"@);
                assert(ext.subrange(at, ext.len() as int)[0] == ext[at]);
                assert(ext[at] == '.');
            }
            assert(!is_meta_extension(ext));
        }
    }
}

/// An entry is kept exactly when no meta file, at any position of the list, is a model
/// meta file with the entry's name and path; and every kept entry is one of the entries.
pub proof fn lemma_kept_entries_are_those_without_meta_file(entries: Seq<EntryModel>, metas: Seq<AssetMetadata>)
    ensures
        forall|k: int, j: int|
            #![trigger unserialized_entries(entries, metas)[k], metas[j]]
            0 <= k < unserialized_entries(entries, metas).len() && 0 <= j < metas.len() && metas[j] is Model ==> !(
            metas[j]->Model_0.name@ == unserialized_entries(entries, metas)[k].name && metas[j]->Model_0.path_buf@
                == unserialized_entries(entries, metas)[k].path),
        forall|i: int|
            0 <= i < entries.len() && (forall|j: int|
                0 <= j < metas.len() && (#[trigger] metas[j]) is Model ==> !(metas[j]->Model_0.name@ == entries[i].name
                    && metas[j]->Model_0.path_buf@ == entries[i].path)) ==> unserialized_entries(entries, metas).contains(
                #[trigger] entries[i],
            ),
        forall|k: int|
            0 <= k < unserialized_entries(entries, metas).len() ==> entries.contains(
                #[trigger] unserialized_entries(entries, metas)[k],
            ),
    decreases entries.len(),
{
    lemma_unserialized_exact(entries, metas);
    let r = unserialized_entries(entries, metas);
    assert forall|k: int, j: int|
        #![trigger r[k], metas[j]]
        0 <= k < r.len() && 0 <= j < metas.len() && metas[j] is Model implies !(metas[j]->Model_0.name@ == r[k].name
        && metas[j]->Model_0.path_buf@ == r[k].path) by {
        assert(!is_serialized(metas, r[k]));
        assert(!meta_matches(metas[j], r[k]));
    }
    assert forall|i: int|
        0 <= i < entries.len() && (forall|j: int|
            0 <= j < metas.len() && (#[trigger] metas[j]) is Model ==> !(metas[j]->Model_0.name@ == entries[i].name
                && metas[j]->Model_0.path_buf@ == entries[i].path)) implies r.contains(#[trigger] entries[i]) by {
        assert forall|j: int| 0 <= j < metas.len() implies !meta_matches(#[trigger] metas[j], entries[i]) by {
            if metas[j] is Model {
            }
        }
        assert(!is_serialized(metas, entries[i]));
    }
    if entries.len() > 0 {
        let rest = entries.drop_last();
        lemma_kept_entries_are_those_without_meta_file(rest, metas);
        let rr = unserialized_entries(rest, metas);
        assert forall|k: int| 0 <= k < r.len() implies entries.contains(#[trigger] r[k]) by {
            if k < rr.len() {
                assert(r[k] == rr[k]);
                let q = choose|q: int| 0 <= q < rest.len() && rest[q] == rr[k];
                assert(entries[q] == rest[q]);
            } else {
                assert(r[k] == entries[entries.len() - 1]);
            }
        }
    }
}

/// Every asset source whose extension is `glb`, `gltf`, `obj` or `fbx` becomes an entry
/// named by its file name, and every entry is made of one of the asset sources.
pub proof fn lemma_every_model_source_becomes_an_entry(paths: Seq<PathModel>)
    requires
        names_and_extensions(paths),
    ensures
        forall|i: int|
            0 <= i < paths.len() && ({
                let ext = path_extension(paths[i]).unwrap();
                ext == "glb"@ || ext == "gltf"@ || ext == "obj"@ || ext == "fbx"@
            }) ==> model_entries_of(paths).contains(
                EntryModel { name: path_file_name(paths[i]).unwrap(), path: #[trigger] paths[i] },
            ),
        forall|k: int| 0 <= k < model_entries_of(paths).len() ==> paths.contains((#[trigger] model_entries_of(paths)[k]).path),
    decreases paths.len(),
{
    if paths.len() > 0 {
        let rest = paths.drop_last();
        assert(names_and_extensions(rest)) by {
            assert forall|i: int| 0 <= i < rest.len() implies #[trigger] path_extension(rest[i]).is_some() by {
                assert(rest[i] == paths[i]);
            }
        }
        lemma_every_model_source_becomes_an_entry(rest);
        let r = model_entries_of(paths);
        let rr = model_entries_of(rest);
        let last = paths.last();
        assert forall|i: int|
            0 <= i < paths.len() && ({
                let ext = path_extension(paths[i]).unwrap();
                ext == "glb"@ || ext == "gltf"@ || ext == "obj"@ || ext == "fbx"@
            }) implies r.contains(EntryModel { name: path_file_name(paths[i]).unwrap(), path: #[trigger] paths[i] }) by {
            let e = EntryModel { name: path_file_name(paths[i]).unwrap(), path: paths[i] };
            if i < paths.len() - 1 {
                assert(rest[i] == paths[i]);
                assert(rr.contains(e));
                let q = choose|q: int| 0 <= q < rr.len() && rr[q] == e;
                assert(r[q] == rr[q]);
            } else {
                assert(r[r.len() - 1] == e);
            }
        }
        assert forall|k: int| 0 <= k < r.len() implies paths.contains((#[trigger] r[k]).path) by {
            if k < rr.len() {
                assert(r[k] == rr[k]);
                let q = choose|q: int| 0 <= q < rest.len() && rest[q] == rr[k].path;
                assert(paths[q] == rest[q]);
            } else {
                assert(r[k].path == paths[paths.len() - 1]);
            }
        }
    }
}

} // verus!
