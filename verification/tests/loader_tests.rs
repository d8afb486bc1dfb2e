use engine_assets::asset_database::AssetDatabase;
use engine_assets::loader::{AssetType, Loader};
use engine_assets::paths::{AssetPath, WalkEntry};
use engine_assets::shared::{AssetHeader, AssetMetadata};

const UUID_A: u128 = 0x67e5504410b1426f9247bb680e5fe0c8;
const UUID_B: u128 = 0x0123456789abcdef0123456789abcdef;

fn path(has_root: bool, parts: &[&str]) -> AssetPath {
    AssetPath { has_root, segments: parts.iter().map(|s| s.to_string()).collect() }
}

fn parts(p: &AssetPath) -> Vec<&str> {
    p.segments.iter().map(|s| s.as_str()).collect()
}

fn header(uuid: u128, name: &str) -> AssetHeader {
    AssetHeader { uuid, name: name.to_string() }
}

#[test]
fn resolve_path_places_the_artifact_in_a_shard_folder() {
    let root = path(true, &["project", "artifacts"]);
    let p = Loader::resolve_path(AssetType::Model, "ship", UUID_A, &root);
    assert!(p.has_root);
    assert_eq!(
        parts(&p),
        vec!["project", "artifacts", "models", "67", "ship_67e55044-10b1-426f-9247-bb680e5fe0c8"]
    );
}

#[test]
fn resolve_path_uses_the_folder_of_each_kind() {
    let root = path(false, &["artifacts"]);
    let t = Loader::resolve_path(AssetType::Texture, "albedo", UUID_B, &root);
    assert_eq!(parts(&t), vec!["artifacts", "textures", "01", "albedo_01234567-89ab-cdef-0123-456789abcdef"]);
    let m = Loader::resolve_path(AssetType::Material, "metal", 0, &root);
    assert_eq!(parts(&m), vec!["artifacts", "materials", "00", "metal_00000000-0000-0000-0000-000000000000"]);
    let top = Loader::resolve_path(AssetType::Material, "x", u128::MAX, &root);
    assert_eq!(parts(&top)[2], "ff");
    assert_eq!(parts(&top)[3], "x_ffffffff-ffff-ffff-ffff-ffffffffffff");
}

#[test]
fn distinct_uuids_give_distinct_paths() {
    let root = path(true, &["a"]);
    let p1 = Loader::resolve_path(AssetType::Model, "same", UUID_A, &root);
    let p2 = Loader::resolve_path(AssetType::Model, "same", UUID_B, &root);
    assert!(!p1.same_path(&p2));
}

#[test]
fn new_loader_is_empty() {
    let loader = Loader::new();
    assert!(loader.collected_meta_files.is_empty());
    assert!(loader.models_to_load.is_empty());
    assert!(loader.textures_to_load.is_empty());
    assert!(loader.materials_to_load.is_empty());
}

#[test]
fn select_meta_files_keeps_regular_meta_files_in_order() {
    let entries = vec![
        WalkEntry { path: path(true, &["assets"]), is_file: false },
        WalkEntry { path: path(true, &["assets", "ship.meta"]), is_file: true },
        WalkEntry { path: path(true, &["assets", "ship.glb"]), is_file: true },
        WalkEntry { path: path(true, &["assets", "folder.meta"]), is_file: false },
        WalkEntry { path: path(true, &["assets", "wood.meta"]), is_file: true },
    ];
    let selected = Loader::select_meta_files(&entries);
    assert_eq!(selected.len(), 2);
    assert_eq!(parts(&selected[0]), vec!["assets", "ship.meta"]);
    assert_eq!(parts(&selected[1]), vec!["assets", "wood.meta"]);
}

#[test]
fn resolve_meta_files_sorts_by_kind_and_empties_the_collection() {
    let mut loader = Loader::new();
    loader.collect_meta_files(vec![
        AssetMetadata::Texture(header(UUID_B, "albedo")),
        AssetMetadata::Model(header(UUID_A, "ship")),
        AssetMetadata::Material(header(7, "metal")),
        AssetMetadata::Model(header(8, "boat")),
    ]);
    assert_eq!(loader.collected_meta_files.len(), 4);
    let mut db = AssetDatabase::new();
    let root = path(true, &["art"]);
    loader.resolve_meta_files(&mut db, &root);
    assert!(loader.collected_meta_files.is_empty());
    assert_eq!(loader.models_to_load.len(), 2);
    assert_eq!(loader.textures_to_load.len(), 1);
    assert_eq!(loader.materials_to_load.len(), 1);
    assert_eq!(loader.models_to_load[0].uuid, UUID_A);
    assert_eq!(loader.models_to_load[0].name, "ship");
    assert_eq!(
        parts(&loader.models_to_load[0].path),
        vec!["art", "models", "67", "ship_67e55044-10b1-426f-9247-bb680e5fe0c8"]
    );
    assert_eq!(loader.models_to_load[1].name, "boat");
    assert_eq!(parts(&loader.models_to_load[1].path)[2], "00");
    assert_eq!(loader.textures_to_load[0].name, "albedo");
    assert_eq!(parts(&loader.textures_to_load[0].path)[1], "textures");
    assert_eq!(loader.materials_to_load[0].uuid, 7);
    assert_eq!(
        parts(&loader.materials_to_load[0].path),
        vec!["art", "materials", "00", "metal_00000000-0000-0000-0000-000000000007"]
    );
}

#[test]
fn resolve_meta_files_appends_to_earlier_assets() {
    let mut loader = Loader::new();
    let mut db = AssetDatabase::new();
    let root = path(false, &["r"]);
    loader.collect_meta_files(vec![AssetMetadata::Model(header(1, "first"))]);
    loader.resolve_meta_files(&mut db, &root);
    loader.collect_meta_files(vec![AssetMetadata::Model(header(2, "second"))]);
    loader.resolve_meta_files(&mut db, &root);
    assert_eq!(loader.models_to_load.len(), 2);
    assert_eq!(loader.models_to_load[0].name, "first");
    assert_eq!(loader.models_to_load[1].name, "second");
}

#[test]
fn load_assets_changes_nothing() {
    let mut loader = Loader::new();
    let mut db = AssetDatabase::new();
    loader.collect_meta_files(vec![AssetMetadata::Model(header(1, "kept"))]);
    loader.load_assets(&mut db);
    assert_eq!(loader.collected_meta_files.len(), 1);
    assert!(loader.models_to_load.is_empty());
}
