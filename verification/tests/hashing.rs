use assets::hashtool::hash;
use assets::hashtool::HashTool;
use xxhash_rust::xxh3::xxh3_64;

#[test]
fn digest_is_the_xxh3_digest_of_the_bytes() {
    assert_eq!(hash(""), 0x2D06_8005_38D3_94C2);
    assert_eq!(hash("fire_node"), xxh3_64(b"fire_node"));
    assert_eq!(hash("żółć"), xxh3_64("żółć".as_bytes()));
    assert_ne!(hash("a"), hash("b"));
}

#[test]
fn tool_gives_back_what_it_hashed() {
    let mut tool = HashTool::new();
    assert_eq!(tool.un_hash(hash("monster")), None);
    let digest = tool.hash("monster");
    assert_eq!(digest, xxh3_64(b"monster"));
    assert_eq!(tool.un_hash(digest), Some("monster".to_string()));
    assert_eq!(tool.un_hash(digest.wrapping_add(1)), None);
    let other = tool.hash("attacker");
    assert_eq!(tool.un_hash(other), Some("attacker".to_string()));
    assert_eq!(tool.un_hash(digest), Some("monster".to_string()));
    assert_eq!(tool.reverse_dict.len(), 2);
}

#[test]
fn tool_remembers_each_string_once() {
    let mut tool = HashTool::new();
    let first = tool.hash("wave");
    let second = tool.hash("wave");
    assert_eq!(first, second);
    assert_eq!(tool.reverse_dict.len(), 1);
}
