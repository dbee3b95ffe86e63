use assets::asset::type_uuid;
use assets::asset::AssetPath;
use assets::asset::TextAsset;
use assets::assets::AssetEvent;
use assets::assets::Assets;
use assets::handle::Handle;
use assets::handle::HandleId;

fn text(content: &str) -> TextAsset {
    TextAsset(content.to_string())
}

fn numbered(number: u64) -> HandleId {
    HandleId::Id(type_uuid::<TextAsset>(), number)
}

fn kinds(events: &[AssetEvent<TextAsset>]) -> Vec<(u8, HandleId)> {
    let mut out = Vec::new();
    for event in events {
        match event {
            AssetEvent::Created { handle } => out.push((0, HandleId::from(*handle))),
            AssetEvent::Modified { handle } => out.push((1, HandleId::from(*handle))),
            AssetEvent::Removed { handle } => out.push((2, HandleId::from(*handle))),
        }
    }
    out
}

#[test]
fn new_table_is_empty() {
    let mut texts: Assets<TextAsset> = Assets::new();
    assert_eq!(texts.len(), 0);
    assert!(texts.is_empty());
    assert!(texts.get(numbered(1)).is_none());
    assert!(!texts.contains(numbered(1)));
    assert!(texts.ids().is_empty());
    assert!(texts.iter().is_empty());
    assert!(texts.drain_events().is_empty());
}

#[test]
fn set_stores_and_tells_created_then_modified() {
    let mut texts: Assets<TextAsset> = Assets::new();
    let handle = texts.set(numbered(1), text("one"));
    assert_eq!(HandleId::from(handle), numbered(1));
    assert_eq!(texts.get(numbered(1)).map(|t| t.0.as_str()), Some("one"));
    texts.set_untracked(numbered(1), text("uno"));
    assert_eq!(texts.get(numbered(1)).map(|t| t.0.as_str()), Some("uno"));
    assert_eq!(texts.len(), 1);
    assert!(!texts.is_empty());
    let events = texts.drain_events();
    assert_eq!(kinds(&events), vec![(0, numbered(1)), (1, numbered(1))]);
    assert!(texts.drain_events().is_empty());
}

#[test]
fn distinct_handles_give_one_created_event_each() {
    let mut texts: Assets<TextAsset> = Assets::new();
    let count: u64 = 25;
    for number in 0..count {
        texts.set(numbered(number), text("x"));
    }
    let events = texts.drain_events();
    let expected: Vec<(u8, HandleId)> = (0..count).map(|number| (0, numbered(number))).collect();
    assert_eq!(kinds(&events), expected);
    assert_eq!(texts.len(), 25);
}

#[test]
fn handles_from_paths_and_numbers_live_side_by_side() {
    let mut texts: Assets<TextAsset> = Assets::new();
    let from_path = HandleId::from(AssetPath::from("a.txt"));
    let labelled = HandleId::from(AssetPath::from("a.txt#part"));
    texts.set(from_path, text("file"));
    texts.set(labelled, text("part"));
    texts.set(numbered(3), text("made"));
    assert_eq!(texts.len(), 3);
    assert_eq!(texts.get(from_path).map(|t| t.0.as_str()), Some("file"));
    assert_eq!(texts.get(labelled).map(|t| t.0.as_str()), Some("part"));
    assert_eq!(texts.get(numbered(3)).map(|t| t.0.as_str()), Some("made"));
    let mut ids = texts.ids();
    ids.sort_by_key(|id| format!("{:?}", id));
    let mut expected = vec![from_path, labelled, numbered(3)];
    expected.sort_by_key(|id| format!("{:?}", id));
    assert_eq!(ids, expected);
    let pairs = texts.iter();
    assert_eq!(pairs.len(), 3);
    for (id, value) in pairs {
        assert_eq!(texts.get(id).map(|t| t.0.as_str()), Some(value.0.as_str()));
    }
}

#[test]
fn remove_takes_the_value_out_and_tells_once() {
    let mut texts: Assets<TextAsset> = Assets::new();
    texts.set(numbered(1), text("one"));
    texts.set(numbered(2), text("two"));
    texts.set(numbered(3), text("three"));
    let _ = texts.drain_events();
    let removed = texts.remove(numbered(2));
    assert_eq!(removed.map(|t| t.0), Some("two".to_string()));
    assert!(texts.get(numbered(2)).is_none());
    assert_eq!(texts.get(numbered(1)).map(|t| t.0.as_str()), Some("one"));
    assert_eq!(texts.get(numbered(3)).map(|t| t.0.as_str()), Some("three"));
    assert_eq!(texts.len(), 2);
    assert!(texts.remove(numbered(2)).is_none());
    let events = texts.drain_events();
    assert_eq!(kinds(&events), vec![(2, numbered(2))]);
}

#[test]
fn get_mut_hands_out_the_value_and_always_tells_modified() {
    let mut texts: Assets<TextAsset> = Assets::new();
    texts.set(numbered(1), text("one"));
    let _ = texts.drain_events();
    match texts.get_mut(numbered(1)) {
        Some(value) => value.0.push_str("!"),
        None => panic!("the value is there"),
    }
    assert_eq!(texts.get(numbered(1)).map(|t| t.0.as_str()), Some("one!"));
    assert!(texts.get_mut(numbered(9)).is_none());
    let events = texts.drain_events();
    assert_eq!(kinds(&events), vec![(1, numbered(1)), (1, numbered(9))]);
    assert_eq!(texts.len(), 1);
}

#[test]
fn get_or_insert_with_makes_the_value_only_where_it_lacks() {
    let mut texts: Assets<TextAsset> = Assets::new();
    {
        let made = texts.get_or_insert_with(numbered(1), || text("made"));
        assert_eq!(made.0, "made");
        made.0.push_str(" once");
    }
    {
        let kept = texts.get_or_insert_with(numbered(1), || text("again"));
        assert_eq!(kept.0, "made once");
    }
    assert_eq!(texts.len(), 1);
    let events = texts.drain_events();
    assert_eq!(kinds(&events), vec![(0, numbered(1))]);
}

#[test]
fn clear_drops_the_values_and_keeps_the_events() {
    let mut texts: Assets<TextAsset> = Assets::new();
    texts.set(numbered(1), text("one"));
    texts.set(numbered(2), text("two"));
    texts.reserve(16);
    texts.shrink_to_fit();
    assert_eq!(texts.len(), 2);
    texts.clear();
    assert!(texts.is_empty());
    assert!(texts.get(numbered(1)).is_none());
    let events = texts.drain_events();
    assert_eq!(kinds(&events), vec![(0, numbered(1)), (0, numbered(2))]);
    texts.set(numbered(1), text("back"));
    assert_eq!(kinds(&texts.drain_events()), vec![(0, numbered(1))]);
}

#[test]
fn get_handle_is_the_typed_handle() {
    let texts: Assets<TextAsset> = Assets::new();
    let handle: Handle<TextAsset> = texts.get_handle(numbered(5));
    assert_eq!(HandleId::from(handle), numbered(5));
}
