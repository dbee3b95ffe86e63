use ahash::AHasher;
use assets::asset::AssetPath;
use assets::asset::AssetPathId;
use assets::asset::LabelId;
use assets::asset::SourcePathId;
use assets::handle::HandleId;
use std::hash::Hash;
use std::hash::Hasher;
use std::path::Path;

fn digest_of_path(path: &str) -> u64 {
    let mut hasher = AHasher::new_with_keys(42, 23);
    Path::new(path).hash(&mut hasher);
    hasher.finish()
}

fn digest_of_label(label: Option<&str>) -> u64 {
    let mut hasher = AHasher::new_with_keys(42, 23);
    label.hash(&mut hasher);
    hasher.finish()
}

#[test]
fn written_path_with_label_is_split_at_the_separator() {
    let path = AssetPath::from("scene.gltf#Mesh0");
    assert_eq!(path.path(), "scene.gltf");
    assert_eq!(path.label(), Some("Mesh0"));
}

#[test]
fn written_path_without_separator_has_no_label() {
    let path = AssetPath::from("res/test_load.txt");
    assert_eq!(path.path(), "res/test_load.txt");
    assert_eq!(path.label(), None);
}

#[test]
fn written_path_keeps_only_the_first_label() {
    let path = AssetPath::from("a#b#c");
    assert_eq!(path.path(), "a");
    assert_eq!(path.label(), Some("b"));
}

#[test]
fn written_path_may_have_empty_parts() {
    let only_label = AssetPath::from("#x");
    assert_eq!(only_label.path(), "");
    assert_eq!(only_label.label(), Some("x"));
    let empty_label = AssetPath::from("a#");
    assert_eq!(empty_label.path(), "a");
    assert_eq!(empty_label.label(), Some(""));
    let nothing = AssetPath::from("");
    assert_eq!(nothing.path(), "");
    assert_eq!(nothing.label(), None);
}

#[test]
fn written_path_counts_characters_not_bytes() {
    let path = AssetPath::from("früh/żółć.txt#ñandú");
    assert_eq!(path.path(), "früh/żółć.txt");
    assert_eq!(path.label(), Some("ñandú"));
}

#[test]
fn new_and_new_ref_keep_what_they_are_given() {
    let owned = AssetPath::new("a.txt".to_string(), Some("first".to_string()));
    assert_eq!(owned.path(), "a.txt");
    assert_eq!(owned.label(), Some("first"));
    let borrowed = AssetPath::new_ref("b.txt", None);
    assert_eq!(borrowed.path(), "b.txt");
    assert_eq!(borrowed.label(), None);
    let copy = owned.to_owned();
    assert_eq!(copy.path(), "a.txt");
    assert_eq!(copy.label(), Some("first"));
}

#[test]
fn equal_text_gives_equal_identity() {
    let written = AssetPath::from("scene.gltf#Mesh0");
    let built = AssetPath::new_ref("scene.gltf", Some("Mesh0"));
    let owned = AssetPath::new("scene.gltf".to_string(), Some("Mesh0".to_string()));
    assert_eq!(written.get_id(), built.get_id());
    assert_eq!(built.get_id(), owned.get_id());
    assert_eq!(built.get_id(), AssetPathId::from(&built));
}

#[test]
fn identity_is_the_keyed_digest_of_path_and_label() {
    let path = AssetPath::new_ref("models/scene.gltf", Some("Mesh0"));
    let id = path.get_id();
    assert_eq!(id.get_source_id(), SourcePathId(digest_of_path("models/scene.gltf")));
    assert_eq!(id.get_label_id(), LabelId(digest_of_label(Some("Mesh0"))));
    assert_eq!(SourcePathId::from("models/scene.gltf"), id.get_source_id());
    assert_eq!(LabelId::from(Some("Mesh0")), id.get_label_id());
}

#[test]
fn identity_tells_paths_and_labels_apart() {
    let a = AssetPath::new_ref("a.txt", None).get_id();
    let b = AssetPath::new_ref("b.txt", None).get_id();
    let labelled = AssetPath::new_ref("a.txt", Some("x")).get_id();
    let empty_label = AssetPath::new_ref("a.txt", Some("")).get_id();
    assert_ne!(a.get_source_id(), b.get_source_id());
    assert_eq!(a.get_label_id(), b.get_label_id());
    assert_eq!(a.get_source_id(), labelled.get_source_id());
    assert_ne!(a.get_label_id(), labelled.get_label_id());
    assert_ne!(a.get_label_id(), empty_label.get_label_id());
    assert_eq!(a.get_label_id(), LabelId(digest_of_label(None)));
}

#[test]
fn identity_reads_the_path_as_a_path() {
    let plain = SourcePathId::from("a/b.txt");
    let doubled = SourcePathId::from("a//b.txt");
    let dotted = SourcePathId::from("a/./b.txt");
    assert_eq!(plain, doubled);
    assert_eq!(plain, dotted);
}

#[test]
fn handle_id_of_a_path_holds_its_identity() {
    let path = AssetPath::from("a.txt#x");
    let id = path.get_id();
    assert_eq!(HandleId::from(id), HandleId::AssetPathId(id));
    assert_eq!(HandleId::from(path), HandleId::AssetPathId(id));
}
