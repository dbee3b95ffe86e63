use assets::asset::type_uuid;
use assets::asset::Asset;
use assets::asset::AssetLoader;
use assets::asset::AssetPath;
use assets::asset::LoaderFailure;
use assets::asset::SourcePathId;
use assets::asset::TestUtf8Error;
use assets::asset::TextAsset;
use assets::asset::TextAssetLoader;
use assets::asset_server::AssetIoError;
use assets::asset_server::AssetServer;
use assets::asset_server::AssetServerError;
use assets::asset_server::LoadRequest;
use assets::assets::AssetEvent;
use assets::assets::Assets;
use assets::handle::Handle;
use assets::handle::HandleId;
use assets::handle::HandleUntyped;
use assets::loader::AssetLifecycle;
use assets::loader::AssetLifecycleChannel;
use assets::loader::AssetLifecycleEvent;
use assets::loader::BoxedAsset;
use assets::loader::LoadContext;
use assets::loader::LoadedAsset;
use assets::AssetServerSettings;
use assets::AssetStage;

struct Number(u32);

impl Asset for Number {
    const TYPE_UUID: u128 = 0x0123_4567_89ab_cdef_0123_4567_89ab_cdef;
}

/// A type that claims the identifier of `TextAsset`.
struct Impostor;

impl Asset for Impostor {
    const TYPE_UUID: u128 = TextAsset::TYPE_UUID;
}

/// Stores the text as the default asset and each line as a labelled one;
/// the number of bytes goes under the label `len`.
struct LinesLoader;

impl AssetLoader for LinesLoader {
    fn load(&self, bytes: &[u8], load_context: &mut LoadContext) -> Result<(), LoaderFailure> {
        let content = match std::str::from_utf8(bytes) {
            Ok(content) => content,
            Err(_) => return Err(LoaderFailure::Other("not text".to_string())),
        };
        load_context.set_default_asset(LoadedAsset::new(TextAsset(content.to_string())));
        for (index, line) in content.lines().enumerate() {
            let label = format!("line{}", index);
            load_context.set_labeled_asset(&label, LoadedAsset::new(TextAsset(line.to_string())));
        }
        load_context.set_labeled_asset("len", LoadedAsset::new(Number(bytes.len() as u32)));
        Ok(())
    }
}

struct ImpostorLoader;

impl AssetLoader for ImpostorLoader {
    fn load(&self, _bytes: &[u8], load_context: &mut LoadContext) -> Result<(), LoaderFailure> {
        load_context.set_default_asset(LoadedAsset::new(Impostor));
        Ok(())
    }
}

fn text_server() -> (AssetServer, Assets<TextAsset>) {
    let mut server = AssetServer::new("assets".to_string());
    server.register_asset_loader(&["txt"], TextAssetLoader {});
    let texts = server.register_asset_type::<TextAsset>();
    (server, texts)
}

fn run(server: &mut AssetServer, request: &LoadRequest, content: &[u8]) -> Result<(), AssetServerError> {
    server.async_load(&request.path, request.version, Ok(content.to_vec()))
}

fn text_of(texts: &Assets<TextAsset>, handle: HandleId) -> Option<String> {
    texts.get(handle).map(|text| text.0.clone())
}

fn created(events: &[AssetEvent<TextAsset>]) -> Vec<HandleId> {
    let mut out = Vec::new();
    for event in events {
        if let AssetEvent::Created { handle } = event {
            out.push(HandleId::from(*handle));
        }
    }
    out
}

#[test]
fn test_load_text() {
    let mut server = AssetServer::new("assets".to_string());
    let mut texts = server.register_asset_type::<TextAsset>();
    server.register_asset_loader(&["txt", "rs"], TextAssetLoader {});
    let untyped = server.load_untyped(AssetPath::from("src/lib.rs"));
    let handle: HandleId = AssetPath::new("src/lib.rs".into(), None).get_id().into();
    assert_eq!(untyped.id, handle);
    assert!(texts.get(handle).is_none());
    let requests = server.take_requests();
    assert_eq!(requests.len(), 1);
    assert_eq!(server.full_path(&requests[0].path), "assets/src/lib.rs");
    let content = b"pub mod asset;\npub mod handle;\n";
    assert!(run(&mut server, &requests[0], content).is_ok());
    assert!(texts.get(handle).is_none());
    assert!(server.update_asset_storage(&mut texts).is_ok());
    assert_eq!(text_of(&texts, handle), Some("pub mod asset;\npub mod handle;\n".to_string()));
}

#[test]
fn test_asset_server() {
    let mut server = AssetServer::new("assets".to_string());
    server.register_asset_loader(&["txt"], TextAssetLoader {});
    let handle: Handle<TextAsset> = server.load(AssetPath::from("res/test_load.txt"));
    assert_eq!(
        HandleId::from(handle),
        HandleId::AssetPathId(AssetPath::from("res/test_load.txt").get_id())
    );
    let requests = server.take_requests();
    assert_eq!(requests.len(), 1);
    assert_eq!(requests[0].path.path(), "res/test_load.txt");
    assert_eq!(requests[0].path.label(), None);
    assert_eq!(requests[0].version, 1);
}

#[test]
fn new_server_knows_nothing() {
    let mut server = AssetServer::with_settings(AssetServerSettings::default());
    assert_eq!(server.root_path(), "assets");
    assert_eq!(server.loader_count(), 0);
    assert_eq!(server.source_version(SourcePathId::from("a.txt")), 0);
    assert!(!server.is_committed(AssetPath::from("a.txt").get_id()));
    assert!(!server.is_registered(type_uuid::<TextAsset>()));
    assert!(server.can_load(&AssetPath::from("a.txt")));
    assert!(server.take_requests().is_empty());
    assert!(AssetStage::LoadAssets != AssetStage::AssetEvents);
}

#[test]
fn loaded_text_is_found_under_its_handle_after_a_drain() {
    let (mut server, mut texts) = text_server();
    let handle = server.load_untyped(AssetPath::from("a.txt"));
    let requests = server.take_requests();
    assert!(run(&mut server, &requests[0], b"hello").is_ok());
    assert!(server.update_asset_storage(&mut texts).is_ok());
    assert_eq!(text_of(&texts, handle.id), Some("hello".to_string()));
    assert_eq!(created(&texts.drain_events()), vec![handle.id]);
    assert!(server.is_committed(AssetPath::from("a.txt").get_id()));
}

#[test]
fn committed_asset_is_served_without_a_new_load() {
    let (mut server, mut texts) = text_server();
    let first = server.load_untyped(AssetPath::from("a.txt"));
    let requests = server.take_requests();
    assert!(run(&mut server, &requests[0], b"hello").is_ok());
    assert!(server.update_asset_storage(&mut texts).is_ok());
    let source = SourcePathId::from("a.txt");
    assert_eq!(server.source_version(source), 1);
    for _ in 0..5 {
        let again = server.load_untyped(AssetPath::from("a.txt"));
        assert_eq!(again, first);
        assert!(server.take_requests().is_empty());
        assert_eq!(server.source_version(source), 1);
        assert!(server.update_asset_storage(&mut texts).is_ok());
        assert_eq!(text_of(&texts, again.id), Some("hello".to_string()));
    }
    let _ = texts.drain_events();
    assert!(server.update_asset_storage(&mut texts).is_ok());
    assert!(texts.drain_events().is_empty());
}

#[test]
fn each_new_load_of_a_file_gets_the_next_version() {
    let (mut server, _texts) = text_server();
    let mut versions = Vec::new();
    for _ in 0..4 {
        server.load_untyped(AssetPath::from("a.txt"));
        server.load_untyped(AssetPath::from("b.txt"));
        server.load_untyped(AssetPath::from("a.txt#part"));
    }
    for request in server.take_requests() {
        if request.path.path() == "a.txt" {
            versions.push(request.version);
        } else {
            assert_eq!(request.path.path(), "b.txt");
        }
    }
    assert_eq!(versions, vec![1, 2, 3, 4, 5, 6, 7, 8]);
    assert_eq!(server.source_version(SourcePathId::from("a.txt")), 8);
    assert_eq!(server.source_version(SourcePathId::from("b.txt")), 4);
}

#[test]
fn later_request_wins_when_it_finishes_first() {
    let (mut server, mut texts) = text_server();
    let handle = server.load_untyped(AssetPath::from("a.txt"));
    server.load_untyped(AssetPath::from("a.txt"));
    let requests = server.take_requests();
    assert_eq!(requests.len(), 2);
    assert!(run(&mut server, &requests[1], b"second").is_ok());
    assert!(server.update_asset_storage(&mut texts).is_ok());
    assert!(run(&mut server, &requests[0], b"first").is_ok());
    assert!(server.update_asset_storage(&mut texts).is_ok());
    assert_eq!(text_of(&texts, handle.id), Some("second".to_string()));
    assert_eq!(created(&texts.drain_events()), vec![handle.id]);
    assert_eq!(texts.len(), 1);
}

#[test]
fn later_request_wins_when_it_finishes_last() {
    let (mut server, mut texts) = text_server();
    let handle = server.load_untyped(AssetPath::from("a.txt"));
    server.load_untyped(AssetPath::from("a.txt"));
    let requests = server.take_requests();
    assert!(run(&mut server, &requests[0], b"first").is_ok());
    assert!(server.update_asset_storage(&mut texts).is_ok());
    assert!(texts.get(handle.id).is_none());
    assert!(!server.is_committed(AssetPath::from("a.txt").get_id()));
    assert!(run(&mut server, &requests[1], b"second").is_ok());
    assert!(server.update_asset_storage(&mut texts).is_ok());
    assert_eq!(text_of(&texts, handle.id), Some("second".to_string()));
    assert_eq!(texts.drain_events().len(), 1);
}

#[test]
fn later_request_brings_its_own_labels() {
    let mut server = AssetServer::new("assets".to_string());
    server.register_asset_loader(&["lines"], LinesLoader);
    let mut texts = server.register_asset_type::<TextAsset>();
    let mut numbers = server.register_asset_type::<Number>();
    server.load_untyped(AssetPath::from("poem.lines"));
    server.load_untyped(AssetPath::from("poem.lines"));
    let requests = server.take_requests();
    assert!(run(&mut server, &requests[1], b"one\ntwo").is_ok());
    assert!(run(&mut server, &requests[0], b"a\nb\nc").is_ok());
    assert!(server.update_asset_storage(&mut texts).is_ok());
    assert!(server.update_asset_storage(&mut numbers).is_ok());
    let id = |label: Option<&str>| HandleId::from(AssetPath::new_ref("poem.lines", label));
    assert_eq!(text_of(&texts, id(None)), Some("one\ntwo".to_string()));
    assert_eq!(text_of(&texts, id(Some("line0"))), Some("one".to_string()));
    assert_eq!(text_of(&texts, id(Some("line1"))), Some("two".to_string()));
    assert!(texts.get(id(Some("line2"))).is_none());
    assert_eq!(texts.len(), 3);
    assert_eq!(numbers.get(id(Some("len"))).map(|n| n.0), Some(7));
    assert_eq!(
        created(&texts.drain_events()),
        vec![id(None), id(Some("line0")), id(Some("line1"))]
    );
    for label in [None, Some("line0"), Some("line1"), Some("len")] {
        assert!(server.is_committed(AssetPath::new_ref("poem.lines", label).get_id()));
    }
    assert!(!server.is_committed(AssetPath::new_ref("poem.lines", Some("line2")).get_id()));
}

#[test]
fn reload_forgets_the_labels_that_are_gone() {
    let mut server = AssetServer::new("assets".to_string());
    server.register_asset_loader(&["lines"], LinesLoader);
    let mut texts = server.register_asset_type::<TextAsset>();
    let mut numbers = server.register_asset_type::<Number>();
    server.load_untyped(AssetPath::from("poem.lines#line2"));
    let requests = server.take_requests();
    assert!(run(&mut server, &requests[0], b"a\nb\nc").is_ok());
    assert!(server.update_asset_storage(&mut texts).is_ok());
    assert!(server.update_asset_storage(&mut numbers).is_ok());
    let third = AssetPath::new_ref("poem.lines", Some("line2")).get_id();
    assert!(server.is_committed(third));
    server.load_untyped(AssetPath::from("poem.lines#line9"));
    let requests = server.take_requests();
    assert_eq!(requests[0].version, 2);
    assert!(run(&mut server, &requests[0], b"x").is_ok());
    assert!(!server.is_committed(third));
    assert!(server.update_asset_storage(&mut texts).is_ok());
    assert!(server.update_asset_storage(&mut numbers).is_ok());
    assert!(!server.is_committed(third));
    assert_eq!(text_of(&texts, HandleId::AssetPathId(third)), Some("c".to_string()));
    assert!(server.is_committed(AssetPath::new_ref("poem.lines", Some("line0")).get_id()));
    assert_eq!(
        text_of(&texts, HandleId::from(AssetPath::from("poem.lines#line0"))),
        Some("x".to_string())
    );
}

#[test]
fn end_to_end_text_file() {
    let (mut server, mut texts) = text_server();
    let handle: Handle<TextAsset> = server.load(AssetPath::from("a.txt"));
    let id = HandleId::from(handle);
    let requests = server.take_requests();
    assert!(run(&mut server, &requests[0], b"content of a.txt").is_ok());
    assert!(server.update_asset_storage(&mut texts).is_ok());
    assert_eq!(text_of(&texts, id), Some("content of a.txt".to_string()));
    let _ = texts.drain_events();
    // the file is gone and asked for twice before either load has run
    assert!(texts.remove(id).is_some());
    server.apply_lifecycle_event(&mut texts, AssetLifecycleEvent::Free(id));
    server.load_untyped(AssetPath::from("a.txt"));
    server.load_untyped(AssetPath::from("a.txt"));
    let requests = server.take_requests();
    assert_eq!(requests.iter().map(|r| r.version).collect::<Vec<_>>(), vec![2, 3]);
    assert!(run(&mut server, &requests[1], b"third").is_ok());
    assert!(run(&mut server, &requests[0], b"second").is_ok());
    assert!(server.update_asset_storage(&mut texts).is_ok());
    assert_eq!(text_of(&texts, id), Some("third".to_string()));
    assert_eq!(texts.len(), 1);
    assert_eq!(server.source_version(SourcePathId::from("a.txt")), 3);
}

#[test]
fn missing_loader_is_reported_before_anything_else() {
    let (mut server, _texts) = text_server();
    for path in ["a.bin", "a", "a.TXT", ".txt", "dir.txt/a"] {
        server.load_untyped(AssetPath::from(path));
        let requests = server.take_requests();
        let result = server.async_load(
            &requests[0].path,
            requests[0].version,
            Err(AssetIoError::NotFound(path.to_string())),
        );
        assert!(matches!(result, Err(AssetServerError::MissingAssetLoader(None))));
        assert!(matches!(
            server.get_loader_by_path(path),
            Err(AssetServerError::MissingAssetLoader(None))
        ));
    }
    assert!(matches!(server.get_loader_by_path("dir/a.txt"), Ok(0)));
    assert!(matches!(server.get_loader_by_path("archive.tar.txt"), Ok(0)));
    assert!(matches!(server.get_loader_by_ext("txt"), Ok(0)));
    assert!(matches!(
        server.get_loader_by_ext("rs"),
        Err(AssetServerError::MissingAssetLoader(None))
    ));
}

#[test]
fn read_failure_is_handed_on() {
    let (mut server, mut texts) = text_server();
    let handle = server.load_untyped(AssetPath::from("a.txt"));
    let requests = server.take_requests();
    let result = server.async_load(
        &requests[0].path,
        requests[0].version,
        Err(AssetIoError::Io("permission denied".to_string())),
    );
    assert!(matches!(
        result,
        Err(AssetServerError::Io(AssetIoError::Io(text))) if text == "permission denied"
    ));
    assert!(server.update_asset_storage(&mut texts).is_ok());
    assert!(texts.get(handle.id).is_none());
    assert!(!server.is_committed(AssetPath::from("a.txt").get_id()));
    assert_eq!(server.source_version(SourcePathId::from("a.txt")), 1);
}

#[test]
fn loader_failure_is_handed_on() {
    let (mut server, mut texts) = text_server();
    let handle = server.load_untyped(AssetPath::from("a.txt"));
    let requests = server.take_requests();
    let result = run(&mut server, &requests[0], b"ab\xffcd");
    assert!(matches!(
        result,
        Err(AssetServerError::AssetLoaderError(LoaderFailure::InvalidText(TestUtf8Error {
            valid_up_to: 2,
            error_len: Some(1),
        })))
    ));
    let cut_short = run(&mut server, &requests[0], b"abc\xe2\x82");
    assert!(matches!(
        cut_short,
        Err(AssetServerError::AssetLoaderError(LoaderFailure::InvalidText(TestUtf8Error {
            valid_up_to: 3,
            error_len: None,
        })))
    ));
    assert!(server.update_asset_storage(&mut texts).is_ok());
    assert!(texts.get(handle.id).is_none());
}

#[test]
fn unregistered_type_is_reported_and_nothing_is_committed() {
    let mut server = AssetServer::new("assets".to_string());
    server.register_asset_loader(&["lines"], LinesLoader);
    let mut texts = server.register_asset_type::<TextAsset>();
    let handle = server.load_untyped(AssetPath::from("poem.lines"));
    let requests = server.take_requests();
    let result = run(&mut server, &requests[0], b"one");
    assert!(matches!(
        result,
        Err(AssetServerError::UnregisteredAssetType(type_id)) if type_id == type_uuid::<Number>()
    ));
    assert!(server.update_asset_storage(&mut texts).is_ok());
    assert!(texts.get(handle.id).is_none());
    assert!(texts.is_empty());
}

#[test]
fn value_of_another_type_ends_the_drain() {
    let mut server = AssetServer::new("assets".to_string());
    server.register_asset_loader(&["fake"], ImpostorLoader);
    server.register_asset_loader(&["txt"], TextAssetLoader {});
    let mut texts = server.register_asset_type::<TextAsset>();
    let fake = server.load_untyped(AssetPath::from("a.fake"));
    let real = server.load_untyped(AssetPath::from("a.txt"));
    let requests = server.take_requests();
    assert!(run(&mut server, &requests[0], b"").is_ok());
    assert!(run(&mut server, &requests[1], b"real").is_ok());
    let result = server.update_asset_storage(&mut texts);
    assert!(matches!(result, Err(AssetServerError::IncorrectHandleType)));
    assert!(texts.get(fake.id).is_none());
    assert!(texts.get(real.id).is_none());
    assert!(server.update_asset_storage(&mut texts).is_ok());
    assert_eq!(text_of(&texts, real.id), Some("real".to_string()));
    assert!(texts.get(fake.id).is_none());
}

#[test]
fn later_registration_replaces_the_loader_of_an_extension() {
    let mut server = AssetServer::new("assets".to_string());
    server.register_asset_loader(&["txt", "md"], TextAssetLoader {});
    server.register_asset_loader(&["txt", "lines"], LinesLoader);
    assert_eq!(server.loader_count(), 2);
    assert!(matches!(server.get_loader_by_ext("txt"), Ok(1)));
    assert!(matches!(server.get_loader_by_ext("md"), Ok(0)));
    assert!(matches!(server.get_loader_by_ext("lines"), Ok(1)));
    let mut texts = server.register_asset_type::<TextAsset>();
    let mut numbers = server.register_asset_type::<Number>();
    server.load_untyped(AssetPath::from("a.txt"));
    let requests = server.take_requests();
    assert!(run(&mut server, &requests[0], b"one").is_ok());
    assert!(server.update_asset_storage(&mut texts).is_ok());
    assert!(server.update_asset_storage(&mut numbers).is_ok());
    assert_eq!(texts.len(), 2);
    assert_eq!(numbers.len(), 1);
}

#[test]
fn registering_a_type_again_empties_its_queue() {
    let (mut server, _old) = text_server();
    let handle = server.load_untyped(AssetPath::from("a.txt"));
    let requests = server.take_requests();
    assert!(run(&mut server, &requests[0], b"lost").is_ok());
    let mut texts = server.register_asset::<TextAsset>();
    assert!(server.update_asset_storage(&mut texts).is_ok());
    assert!(texts.get(handle.id).is_none());
}

#[test]
fn stale_event_is_stored_but_not_committed() {
    let (mut server, mut texts) = text_server();
    let handle = server.load_untyped(AssetPath::from("a.txt"));
    let requests = server.take_requests();
    assert!(run(&mut server, &requests[0], b"old").is_ok());
    server.load_untyped(AssetPath::from("a.txt"));
    assert!(server.update_asset_storage(&mut texts).is_ok());
    assert_eq!(text_of(&texts, handle.id), Some("old".to_string()));
    assert!(!server.is_committed(AssetPath::from("a.txt").get_id()));
}

#[test]
fn free_event_removes_the_value_and_uncommits_the_label() {
    let (mut server, mut texts) = text_server();
    let handle = server.load_untyped(AssetPath::from("a.txt"));
    let requests = server.take_requests();
    assert!(run(&mut server, &requests[0], b"hello").is_ok());
    assert!(server.update_asset_storage(&mut texts).is_ok());
    let _ = texts.drain_events();
    server.apply_lifecycle_event(&mut texts, AssetLifecycleEvent::Free(handle.id));
    assert!(texts.get(handle.id).is_none());
    assert!(!server.is_committed(AssetPath::from("a.txt").get_id()));
    assert!(matches!(
        texts.drain_events().as_slice(),
        [AssetEvent::Removed { handle: removed }] if HandleId::from(*removed) == handle.id
    ));
    server.load_untyped(AssetPath::from("a.txt"));
    assert_eq!(server.take_requests().len(), 1);
}

#[test]
fn context_keeps_one_asset_for_each_label() {
    let mut context = LoadContext::new(3, "a.txt");
    assert_eq!(context.path(), "a.txt");
    assert_eq!(context.version(), 3);
    assert!(!context.has_labeled_asset("x"));
    let default = context.set_default_asset(LoadedAsset::new(TextAsset("d".to_string())));
    assert_eq!(HandleId::from(default), HandleId::from(AssetPath::new_ref("a.txt", None)));
    assert!(!context.has_labeled_asset(""));
    let x = context.set_labeled_asset("x", LoadedAsset::new(Number(1)));
    assert_eq!(HandleId::from(x), HandleId::from(AssetPath::new_ref("a.txt", Some("x"))));
    context.set_labeled_asset("y", LoadedAsset::new(Number(2)));
    context.set_labeled_asset("x", LoadedAsset::new(TextAsset("again".to_string())));
    assert!(context.has_labeled_asset("x"));
    assert!(context.has_labeled_asset("y"));
    assert!(!context.has_labeled_asset("z"));
    assert_eq!(
        context.type_uuids(),
        vec![type_uuid::<TextAsset>(), type_uuid::<TextAsset>(), type_uuid::<Number>()]
    );
    let mut results = context.into_results();
    assert_eq!(results.len(), 3);
    let first = results.pop();
    assert!(matches!(
        first,
        Some(finished) if finished.result.id == HandleId::from(AssetPath::new_ref("a.txt", None))
            && finished.result.version == 3 && finished.type_uuid == type_uuid::<TextAsset>()
    ));
    let second = results.pop();
    assert!(matches!(
        second,
        Some(finished) if finished.result.id == HandleId::from(AssetPath::from("a.txt#x"))
            && finished.type_uuid == type_uuid::<TextAsset>()
    ));
    let third = results.pop();
    assert!(matches!(
        third,
        Some(finished) if finished.result.id == HandleId::from(AssetPath::from("a.txt#y"))
            && finished.type_uuid == type_uuid::<Number>()
    ));
}

#[test]
fn loaded_asset_collects_its_dependencies() {
    let asset = LoadedAsset::new(TextAsset("t".to_string()))
        .with_dependency(AssetPath::from("a.png"))
        .with_dependencies(vec![AssetPath::from("b.png#x"), AssetPath::from("c.png")]);
    let mut context = LoadContext::new(1, "scene.txt");
    context.set_default_asset(asset);
    assert_eq!(context.type_uuids(), vec![type_uuid::<TextAsset>()]);
}

#[test]
fn channel_hands_events_out_in_the_order_they_came() {
    let mut context = LoadContext::new(4, "a.txt");
    context.set_labeled_asset("one", LoadedAsset::new(Number(1)));
    context.set_labeled_asset("two", LoadedAsset::new(Number(2)));
    let mut results = context.into_results();
    let mut channel = AssetLifecycleChannel::new(type_uuid::<Number>());
    assert_eq!(channel.type_uuid(), type_uuid::<Number>());
    assert!(channel.try_recv().is_none());
    let one = results.pop().map(|finished| finished.result);
    let two = results.pop().map(|finished| finished.result);
    let id_one = HandleId::from(AssetPath::from("a.txt#one"));
    let id_two = HandleId::from(AssetPath::from("a.txt#two"));
    if let (Some(one), Some(two)) = (one, two) {
        channel.create_asset(one.id, one.asset, one.version);
        channel.free_asset(id_one);
        channel.create_asset(two.id, two.asset, two.version);
    }
    assert!(matches!(
        channel.try_recv(),
        Some(AssetLifecycleEvent::Create(result)) if result.id == id_one && result.version == 4
    ));
    assert!(matches!(channel.try_recv(), Some(AssetLifecycleEvent::Free(id)) if id == id_one));
    assert!(matches!(
        channel.try_recv(),
        Some(AssetLifecycleEvent::Create(result)) if result.id == id_two && result.version == 4
    ));
    assert!(channel.try_recv().is_none());
    assert!(channel.try_recv().is_none());
}

#[test]
fn text_loader_stores_the_text_without_label() {
    let loader = TextAssetLoader {};
    let mut context = LoadContext::new(1, "a.txt");
    assert!(loader.load("grüße".as_bytes(), &mut context).is_ok());
    assert_eq!(context.type_uuids(), vec![type_uuid::<TextAsset>()]);
    let mut results = context.into_results();
    let finished = results.pop();
    assert!(matches!(
        finished,
        Some(finished) if finished.result.id == HandleId::from(AssetPath::from("a.txt"))
    ));
    let mut refused = LoadContext::new(1, "b.txt");
    let result = loader.load(&[0x80], &mut refused);
    assert!(matches!(
        result,
        Err(LoaderFailure::InvalidText(TestUtf8Error { valid_up_to: 0, error_len: Some(1) }))
    ));
    assert!(refused.type_uuids().is_empty());
}

#[test]
fn handle_of_a_load_is_typed_on_trust() {
    let (mut server, _texts) = text_server();
    let untyped: HandleUntyped = server.load_untyped(AssetPath::from("a.txt"));
    let as_number: Handle<Number> = untyped.typed();
    assert_eq!(HandleId::from(as_number), untyped.id);
}

#[test]
fn overlapping_requests_commit_only_the_last() {
    let orders: [[usize; 3]; 6] =
        [[0, 1, 2], [0, 2, 1], [1, 0, 2], [1, 2, 0], [2, 0, 1], [2, 1, 0]];
    let contents: [&[u8]; 3] = [b"first", b"second", b"third"];
    for order in orders {
        let (mut server, mut texts) = text_server();
        let handle = server.load_untyped(AssetPath::from("a.txt"));
        server.load_untyped(AssetPath::from("a.txt"));
        server.load_untyped(AssetPath::from("a.txt"));
        let requests = server.take_requests();
        assert_eq!(requests.iter().map(|r| r.version).collect::<Vec<_>>(), vec![1, 2, 3]);
        for index in order {
            assert!(run(&mut server, &requests[index], contents[index]).is_ok());
        }
        assert!(server.update_asset_storage(&mut texts).is_ok());
        assert_eq!(text_of(&texts, handle.id), Some("third".to_string()));
        assert_eq!(created(&texts.drain_events()), vec![handle.id]);
        assert!(server.is_committed(AssetPath::from("a.txt").get_id()));
        server.load_untyped(AssetPath::from("a.txt"));
        assert!(server.take_requests().is_empty());
    }
}

#[test]
fn every_read_failure_comes_back_as_it_went_in() {
    let (mut server, _texts) = text_server();
    server.load_untyped(AssetPath::from("a.txt"));
    let requests = server.take_requests();
    let request = &requests[0];
    let missing = server.async_load(
        &request.path,
        request.version,
        Err(AssetIoError::NotFound("assets/a.txt".to_string())),
    );
    assert!(matches!(
        missing,
        Err(AssetServerError::Io(AssetIoError::NotFound(path))) if path == "assets/a.txt"
    ));
    let unwatched = server.async_load(
        &request.path,
        request.version,
        Err(AssetIoError::PathWatchError("assets".to_string())),
    );
    assert!(matches!(
        unwatched,
        Err(AssetServerError::Io(AssetIoError::PathWatchError(path))) if path == "assets"
    ));
    assert!(run(&mut server, request, b"in the end it loads").is_ok());
    assert!(!server.is_committed(AssetPath::from("a.txt").get_id()));
}

#[test]
fn failure_in_the_loaders_own_words_is_handed_on() {
    let mut server = AssetServer::new("assets".to_string());
    server.register_asset_loader(&["lines"], LinesLoader);
    let mut texts = server.register_asset_type::<TextAsset>();
    let _numbers = server.register_asset_type::<Number>();
    server.load_untyped(AssetPath::from("poem.lines"));
    let requests = server.take_requests();
    let result = run(&mut server, &requests[0], &[0xc3, 0x28]);
    assert!(matches!(
        result,
        Err(AssetServerError::AssetLoaderError(LoaderFailure::Other(text))) if text == "not text"
    ));
    assert!(server.update_asset_storage(&mut texts).is_ok());
    assert!(texts.is_empty());
}

#[test]
fn channel_refuses_an_asset_of_another_type() {
    let mut channel = AssetLifecycleChannel::new(type_uuid::<TextAsset>());
    let id = HandleId::from(AssetPath::from("a.txt"));
    let number = BoxedAsset::new(Number(1));
    assert_eq!(number.type_uuid(), type_uuid::<Number>());
    let refused = channel.try_create_asset(id, number, 1);
    assert!(matches!(refused, Err(AssetServerError::IncorrectHandleType)));
    assert!(channel.try_recv().is_none());
    let text = BoxedAsset::new(TextAsset("t".to_string()));
    assert!(channel.try_create_asset(id, text, 2).is_ok());
    channel.create_asset(id, BoxedAsset::new(TextAsset("u".to_string())), 3);
    assert!(matches!(
        channel.try_recv(),
        Some(AssetLifecycleEvent::Create(result)) if result.id == id && result.version == 2
    ));
    assert!(matches!(
        channel.try_recv(),
        Some(AssetLifecycleEvent::Create(result)) if result.version == 3
            && result.asset.type_uuid() == type_uuid::<TextAsset>()
    ));
    assert!(channel.try_recv().is_none());
}

#[test]
fn box_gives_back_the_value_it_was_made_of() {
    let boxed = BoxedAsset::new(TextAsset("hello".to_string()));
    assert_eq!(boxed.type_uuid(), type_uuid::<TextAsset>());
    let as_number = boxed.unbox::<Number>();
    let boxed = match as_number {
        Ok(_) => panic!("a text is no number"),
        Err(back) => back,
    };
    assert_eq!(boxed.type_uuid(), type_uuid::<TextAsset>());
    assert!(matches!(boxed.unbox::<TextAsset>(), Ok(text) if text.0 == "hello"));
    let number = BoxedAsset::new(Number(7));
    assert!(matches!(number.unbox::<Number>(), Ok(Number(7))));
    let impostor = BoxedAsset::new(Impostor);
    assert_eq!(impostor.type_uuid(), type_uuid::<TextAsset>());
    assert!(impostor.unbox::<TextAsset>().is_err());
}

#[test]
fn load_of_a_file_that_was_never_requested_is_refused() {
    let (mut server, mut texts) = text_server();
    let source = SourcePathId::from("a.txt");
    assert!(!server.knows_source(source));
    let mut context = LoadContext::new(1, "a.txt");
    context.set_default_asset(LoadedAsset::new(TextAsset("unasked".to_string())));
    let result = server.try_commit_load(context);
    assert!(matches!(result, Err(AssetServerError::UnknownSource(id)) if id == source));
    let through = server.async_load(&AssetPath::from("a.txt"), 1, Ok(b"unasked".to_vec()));
    assert!(matches!(through, Err(AssetServerError::UnknownSource(id)) if id == source));
    assert!(server.update_asset_storage(&mut texts).is_ok());
    assert!(texts.is_empty());
    assert!(!server.knows_source(source));
}

#[test]
fn commit_takes_in_a_load_that_is_current_and_drops_one_that_is_stale() {
    let (mut server, mut texts) = text_server();
    let handle = server.load_untyped(AssetPath::from("a.txt"));
    server.load_untyped(AssetPath::from("a.txt"));
    assert!(server.knows_source(SourcePathId::from("a.txt")));
    let mut stale = LoadContext::new(1, "a.txt");
    stale.set_default_asset(LoadedAsset::new(TextAsset("stale".to_string())));
    server.commit_load(stale);
    let mut current = LoadContext::new(2, "a.txt");
    current.set_default_asset(LoadedAsset::new(TextAsset("current".to_string())));
    server.commit_load(current);
    assert!(server.update_asset_storage(&mut texts).is_ok());
    assert_eq!(text_of(&texts, handle.id), Some("current".to_string()));
    assert_eq!(texts.drain_events().len(), 1);
}

#[test]
fn request_that_can_be_served_is_served() {
    let (mut server, _texts) = text_server();
    let handle = server.try_load_untyped(AssetPath::from("a.txt"));
    assert_eq!(
        handle,
        Some(HandleUntyped { id: HandleId::from(AssetPath::from("a.txt")) })
    );
    let requests = server.take_requests();
    assert_eq!(requests.len(), 1);
    assert_eq!(requests[0].version, 1);
}

#[test]
fn boxed_loader_is_registered_as_it_is() {
    let mut server = AssetServer::new("assets".to_string());
    let boxed: Box<dyn AssetLoader> = Box::new(LinesLoader);
    server.register_boxed_asset_loader(&["lines"], boxed);
    server.register_boxed_asset_loader(&["txt", "lines"], Box::new(TextAssetLoader {}));
    assert_eq!(server.loader_count(), 2);
    assert!(matches!(server.get_loader_by_ext("lines"), Ok(1)));
    assert!(matches!(server.get_loader_by_ext("txt"), Ok(1)));
    let mut context = LoadContext::new(1, "poem.lines");
    assert!(server.loader(0).load(b"a\nb", &mut context).is_ok());
    assert_eq!(context.type_uuids().len(), 4);
    let mut other = LoadContext::new(1, "poem.lines");
    assert!(server.loader(1).load(b"a\nb", &mut other).is_ok());
    assert_eq!(other.type_uuids(), vec![type_uuid::<TextAsset>()]);
}

#[test]
fn typed_request_that_can_be_served_is_served() {
    let (mut server, _texts) = text_server();
    let handle: Option<Handle<TextAsset>> = server.try_load(AssetPath::from("a.txt#x"));
    assert_eq!(
        handle.map(HandleId::from),
        Some(HandleId::from(AssetPath::from("a.txt#x")))
    );
    assert_eq!(server.take_requests().len(), 1);
}
