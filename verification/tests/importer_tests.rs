use engine_assets::importer::{
    AssetEntry, AssetMetadata, BaseAssetEntry, Importer, ModelAssetMetadata, ModelEntry, TextureAssetMetadata,
};
use engine_assets::paths::{AssetPath, WalkEntry};
use engine_assets::serializers::Serializers;

fn path(has_root: bool, parts: &[&str]) -> AssetPath {
    AssetPath { has_root, segments: parts.iter().map(|s| s.to_string()).collect() }
}

fn parts(p: &AssetPath) -> Vec<&str> {
    p.segments.iter().map(|s| s.as_str()).collect()
}

fn file(parts: &[&str]) -> WalkEntry {
    WalkEntry { path: path(true, parts), is_file: true }
}

fn entry_names(importer: &Importer) -> Vec<String> {
    importer
        .assets_entries
        .iter()
        .map(|e| match e {
            AssetEntry::Model(m) => m.entry.name.clone(),
        })
        .collect()
}

fn model_meta(name: &str, parts: &[&str]) -> AssetMetadata {
    AssetMetadata::Model(ModelAssetMetadata { name: name.to_string(), path_buf: path(true, parts), textures: vec![] })
}

fn model_entry(name: &str, parts: &[&str]) -> AssetEntry {
    AssetEntry::Model(ModelEntry { entry: BaseAssetEntry { name: name.to_string(), path_buf: path(true, parts) } })
}

fn importer() -> Importer {
    Importer::new(path(true, &["game", "target", "debug", "deps", "engine"]))
}

#[test]
fn assets_folder_is_three_levels_above_the_program() {
    let imp = importer();
    assert!(imp.asset_folder_path_buffer.has_root);
    assert_eq!(parts(&imp.asset_folder_path_buffer), vec!["game", "target", "assets"]);
    assert!(imp.assets_to_serialize.is_empty());
    assert_eq!(imp.serializers.ron_pretty_config.depth_limit, 2);
    assert_eq!(imp.serializers.ron_pretty_config.indentor, "    ");
    assert!(imp.meta_files.is_empty());
    assert!(imp.assets_entries.is_empty());
}

#[test]
fn assets_folder_of_a_short_program_path() {
    let p = Importer::get_assets_folder_path_buffer(path(true, &["bin", "engine"]));
    assert!(p.has_root);
    assert_eq!(parts(&p), vec!["assets"]);
}

#[test]
fn collect_treats_every_regular_file_as_an_asset_source() {
    let mut imp = importer();
    imp.add_meta_file(model_meta("old", &["x"]));
    let entries = vec![
        WalkEntry { path: path(true, &["assets", "models"]), is_file: false },
        file(&["assets", "models", "ship.glb"]),
        file(&["assets", "models", "ship.glb.meta"]),
        file(&["assets", "textures", "wood.png"]),
    ];
    let metas = imp.collect_assets_to_serialize(&entries);
    assert!(metas.is_empty());
    assert!(imp.meta_files.is_empty());
    assert_eq!(imp.assets_to_serialize.len(), 3);
    assert_eq!(parts(&imp.assets_to_serialize[1]), vec!["assets", "models", "ship.glb.meta"]);
}

#[test]
fn resolve_keeps_model_sources_named_by_file_name() {
    let mut imp = importer();
    let entries = vec![
        file(&["assets", "a.glb"]),
        file(&["assets", "b.png"]),
        file(&["assets", "c.gltf"]),
        file(&["assets", "d.obj"]),
        file(&["assets", "e.fbx"]),
        file(&["assets", "f.GLB"]),
    ];
    imp.collect_assets_to_serialize(&entries);
    imp.resolve_assets_entries();
    assert!(imp.assets_to_serialize.is_empty());
    assert_eq!(entry_names(&imp), vec!["a.glb", "c.gltf", "d.obj", "e.fbx"]);
    match &imp.assets_entries[1] {
        AssetEntry::Model(m) => assert_eq!(parts(&m.entry.path_buf), vec!["assets", "c.gltf"]),
    }
}

#[test]
fn check_drops_entries_described_by_a_meta_file() {
    let mut imp = importer();
    imp.assets_entries = vec![
        model_entry("a.glb", &["assets", "a.glb"]),
        model_entry("b.glb", &["assets", "b.glb"]),
        model_entry("c.glb", &["assets", "c.glb"]),
    ];
    imp.add_meta_file(model_meta("b.glb", &["assets", "b.glb"]));
    imp.add_meta_file(model_meta("c.glb", &["elsewhere", "c.glb"]));
    imp.check_if_asset_is_serialized();
    assert_eq!(entry_names(&imp), vec!["a.glb", "c.glb"]);
    imp.check_if_asset_is_serialized();
    assert_eq!(entry_names(&imp), vec!["a.glb", "c.glb"]);
}

#[test]
fn check_passes_texture_meta_files_after_a_match() {
    let mut imp = importer();
    imp.assets_entries = vec![model_entry("a.glb", &["assets", "a.glb"])];
    imp.add_meta_file(model_meta("a.glb", &["assets", "a.glb"]));
    imp.add_meta_file(AssetMetadata::Texture(TextureAssetMetadata {
        uuid: "t".to_string(),
        name: "wood".to_string(),
        path_buf: None,
    }));
    imp.check_if_asset_is_serialized();
    assert!(imp.assets_entries.is_empty());
}

#[test]
fn unserialized_models_lists_the_entries() {
    let mut imp = importer();
    imp.assets_entries = vec![model_entry("a.glb", &["assets", "a.glb"]), model_entry("b.obj", &["b.obj"])];
    let models = imp.unserialized_models();
    assert_eq!(models.len(), 2);
    assert_eq!(models[0].entry.name, "a.glb");
    assert_eq!(parts(&models[1].entry.path_buf), vec!["b.obj"]);
}

#[test]
fn serializers_limit_depth_and_indent_by_four_spaces() {
    let s = Serializers::new();
    assert_eq!(s.ron_pretty_config.depth_limit, 2);
    assert_eq!(s.ron_pretty_config.indentor, "    ");
    assert_eq!(s.ron_pretty_config, ron::ser::PrettyConfig::new().depth_limit(2).indentor("    "));
}

#[test]
fn assets_without_extension_are_reported() {
    let mut imp = importer();
    imp.assets_to_serialize = vec![path(true, &["a.glb"]), path(true, &["README"])];
    assert!(!imp.assets_have_names_and_extensions());
    imp.assets_to_serialize.pop();
    assert!(imp.assets_have_names_and_extensions());
}

#[test]
fn texture_meta_before_a_match_is_reported() {
    let mut imp = importer();
    imp.assets_entries = vec![model_entry("a.glb", &["a.glb"])];
    imp.add_meta_file(AssetMetadata::Texture(TextureAssetMetadata {
        uuid: "t".to_string(),
        name: "wood".to_string(),
        path_buf: None,
    }));
    imp.add_meta_file(model_meta("a.glb", &["a.glb"]));
    assert!(imp.reaches_texture_meta());
    imp.meta_files.reverse();
    assert!(!imp.reaches_texture_meta());
}

#[test]
fn walks_with_extensionless_files_are_reported() {
    use_walk_check();
}

fn use_walk_check() {
    let good = vec![file(&["a.glb"]), WalkEntry { path: path(true, &["dir"]), is_file: false }];
    assert!(engine_assets::paths::walk_files_have_extensions(&good));
    let bad = vec![file(&["a.glb"]), file(&["Makefile"])];
    assert!(!engine_assets::paths::walk_files_have_extensions(&bad));
}
