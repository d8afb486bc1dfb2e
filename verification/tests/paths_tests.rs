use engine_assets::paths::AssetPath;
use engine_assets::text::{text_contains, text_ends_with, text_equals};

fn path(has_root: bool, parts: &[&str]) -> AssetPath {
    AssetPath { has_root, segments: parts.iter().map(|s| s.to_string()).collect() }
}

fn parts(p: &AssetPath) -> Vec<&str> {
    p.segments.iter().map(|s| s.as_str()).collect()
}

#[test]
fn extension_of_a_model_file() {
    let p = path(true, &["assets", "ship.glb"]);
    assert_eq!(p.extension(), Some("glb".to_string()));
    assert_eq!(p.file_name(), Some("ship.glb".to_string()));
}

#[test]
fn extension_is_what_follows_the_last_dot() {
    assert_eq!(path(false, &["archive.tar.gz"]).extension(), Some("gz".to_string()));
    assert_eq!(path(false, &["notes."]).extension(), Some("".to_string()));
    assert_eq!(path(false, &[".a.b"]).extension(), Some("b".to_string()));
}

#[test]
fn no_extension_without_a_dot_after_the_first_character() {
    assert_eq!(path(false, &["README"]).extension(), None);
    assert_eq!(path(false, &[".bashrc"]).extension(), None);
}

#[test]
fn no_file_name_for_root_empty_or_parent_paths() {
    assert_eq!(path(true, &[]).file_name(), None);
    assert_eq!(path(false, &[]).file_name(), None);
    assert_eq!(path(false, &["a", ".."]).file_name(), None);
    assert_eq!(path(false, &["."]).file_name(), None);
    assert_eq!(path(false, &["a", ".."]).extension(), None);
}

#[test]
fn pop_undoes_push() {
    let mut p = path(true, &["home", "user"]);
    p.push("ship.glb".to_string());
    assert_eq!(parts(&p), vec!["home", "user", "ship.glb"]);
    assert_eq!(p.file_name(), Some("ship.glb".to_string()));
    assert!(p.pop());
    assert_eq!(parts(&p), vec!["home", "user"]);
    assert!(p.has_root);
}

#[test]
fn pop_on_an_empty_path_does_nothing() {
    let mut p = path(true, &[]);
    assert!(!p.pop());
    assert!(p.has_root);
    assert!(p.segments.is_empty());
}

#[test]
fn same_path_compares_components() {
    let a = path(true, &["a", "b"]);
    assert!(a.same_path(&path(true, &["a", "b"])));
    assert!(!a.same_path(&path(false, &["a", "b"])));
    assert!(!a.same_path(&path(true, &["a", "c"])));
    assert!(!a.same_path(&path(true, &["a"])));
    let d = a.duplicate();
    assert!(d.same_path(&a));
}

#[test]
fn text_helpers() {
    assert!(text_equals("glb", "glb"));
    assert!(!text_equals("glb", "gltf"));
    assert!(text_ends_with("model.meta", ".meta"));
    assert!(!text_ends_with("meta", ".meta"));
    assert!(text_contains("BLEND", "BLEND"));
    assert!(text_contains("ALPHA_BLEND_MODE", "BLEND"));
    assert!(!text_contains("OPAQUE", "BLEND"));
    assert!(text_contains("anything", ""));
}
