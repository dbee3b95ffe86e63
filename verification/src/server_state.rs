//! The asset server as contracts see it: its state, what each operation
//! makes of the state, and what follows for any run of operations.

use crate::asset::asset_path_id;
use crate::asset::label_id;
use crate::asset::source_path_id;
use crate::asset::type_uuid_of;
use crate::asset::Asset;
use crate::asset::AssetLoader;
use crate::asset::AssetPathId;
use crate::asset::LabelId;
use crate::asset::SourcePathId;
use crate::asset::TextAsset;
use crate::asset::lemma_unboxed_text;
use crate::loader::AssetLoadResult;
use crate::asset_server::path_extension;
use crate::asset_server::AssetServerError;
use crate::assets::after_remove;
use crate::assets::after_set;
use crate::assets::AssetsState;
use crate::handle::HandleId;
use crate::loader::create_event;
use crate::loader::with_entry;
use crate::loader::AssetLifecycleEvent;
use crate::loader::BoxedAsset;
use crate::loader::LoadedEntry;
use crate::source::unrequested;
use crate::source::SourceState;
use vstd::prelude::*;

verus! {

/// A load request as contracts see it.
pub struct PendingLoad {
    pub path: (Seq<char>, Option<Seq<char>>),
    pub version: usize,
}

/// The server as contracts see it.
pub struct ServerState {
    /// The record of every source file that was ever requested, by the
    /// digest of its path.
    pub sources: Map<u64, SourceState>,
    /// The position, in the list of loaders, of the loader for each file
    /// extension.
    pub loaders: Map<Seq<char>, usize>,
    /// The loaders, in the order they were registered.
    pub loader_list: Seq<Box<dyn AssetLoader>>,
    /// The queue of every registered asset type, by the type's identifier.
    pub queues: Map<u128, Seq<AssetLifecycleEvent<BoxedAsset>>>,
    /// The loads that were issued and not handed out yet, oldest first.
    pub pending: Seq<PendingLoad>,
    /// The folder that paths are read from.
    pub root_path: Seq<char>,
}

/// The record of the source `source`; that of an unrequested file where the
/// server has none.
pub open spec fn source_state(state: ServerState, source: SourcePathId) -> SourceState {
    if state.sources.contains_key(source.0) {
        state.sources[source.0]
    } else {
        unrequested()
    }
}

/// Whether the asset `id` is committed: a load of the latest version of its
/// source has finished and stored it.
pub open spec fn is_committed(state: ServerState, id: AssetPathId) -> bool {
    source_state(state, id.0).committed.contains(id.1.0)
}

/// Whether `version` is the latest version issued of the source `source`.
pub open spec fn is_current(state: ServerState, source: SourcePathId, version: usize) -> bool {
    state.sources.contains_key(source.0) && state.sources[source.0].version == version
}

/// Whether a request for `id` can be served: either the asset is committed,
/// or the source's version can still be counted up.
pub open spec fn can_load(state: ServerState, id: AssetPathId) -> bool {
    is_committed(state, id) || source_state(state, id.0).version < usize::MAX
}

/// The server after a request for the asset at `path`. A committed asset
/// leaves it as it was. Any other issues the next version of the source and
/// records the load as pending.
pub open spec fn after_load(state: ServerState, path: (Seq<char>, Option<Seq<char>>)) -> ServerState {
    let id = asset_path_id(path.0, path.1);
    if is_committed(state, id) {
        state
    } else {
        let version = (source_state(state, id.0).version + 1) as usize;
        ServerState {
            sources: state.sources.insert(
                id.0.0,
                SourceState { version, committed: source_state(state, id.0).committed },
            ),
            pending: state.pending.push(PendingLoad { path, version }),
            ..state
        }
    }
}

/// The events that a finished load sends to the queue of the type
/// `type_uuid`: one for each of its assets of that type, in the order of the
/// assets.
pub open spec fn created_for(
    type_uuid: u128,
    path: Seq<char>,
    version: usize,
    entries: Seq<LoadedEntry>,
) -> Seq<AssetLifecycleEvent<BoxedAsset>> {
    entries.filter(|entry: LoadedEntry| entry.type_uuid().0 == type_uuid).map_values(
        |entry: LoadedEntry| create_event(path, version, entry),
    )
}

/// One more asset adds one event to the queue of its type and none to any
/// other.
pub proof fn lemma_created_for_push(
    type_uuid: u128,
    path: Seq<char>,
    version: usize,
    entries: Seq<LoadedEntry>,
    entry: LoadedEntry,
)
    ensures
        created_for(type_uuid, path, version, entries.push(entry)) == if entry.type_uuid().0
            == type_uuid {
            created_for(type_uuid, path, version, entries).push(create_event(path, version, entry))
        } else {
            created_for(type_uuid, path, version, entries)
        },
{
    reveal(Seq::filter);
    assert(entries.push(entry).drop_last() == entries);
}

/// Every event that a finished load sends tells of an asset of that load:
/// it creates the asset under the handle of the load's file and the asset's
/// label, with the load's version.
pub proof fn lemma_created_events_are_of_their_load(
    type_uuid: u128,
    path: Seq<char>,
    version: usize,
    entries: Seq<LoadedEntry>,
)
    ensures
        created_for(type_uuid, path, version, entries).len() <= entries.len(),
        forall|i: int|
            0 <= i < created_for(type_uuid, path, version, entries).len() ==> exists|k: int|
                0 <= k < entries.len() && entries[k].type_uuid().0 == type_uuid && (
                #[trigger] created_for(type_uuid, path, version, entries)[i]) == create_event(
                    path,
                    version,
                    #[trigger] entries[k],
                ),
    decreases entries.len(),
{
    if entries.len() == 0 {
        reveal(Seq::filter);
    } else {
        let front = entries.drop_last();
        let last = entries.last();
        lemma_created_events_are_of_their_load(type_uuid, path, version, front);
        lemma_created_for_push(type_uuid, path, version, front, last);
        assert(entries == front.push(last));
        let sent = created_for(type_uuid, path, version, entries);
        let before = created_for(type_uuid, path, version, front);
        assert forall|i: int| 0 <= i < sent.len() implies exists|k: int|
            0 <= k < entries.len() && entries[k].type_uuid().0 == type_uuid && (#[trigger] sent[i])
                == create_event(path, version, #[trigger] entries[k]) by {
            if i < before.len() {
                assert(sent[i] == before[i]);
                let k = choose|k: int|
                    0 <= k < front.len() && front[k].type_uuid().0 == type_uuid && before[i]
                        == create_event(path, version, #[trigger] front[k]);
                assert(entries[k] == front[k]);
            } else {
                assert(sent[i] == create_event(path, version, entries[entries.len() - 1]));
            }
        }
    }
}

/// Every asset of a finished load is sent to the queue of its type.
pub proof fn lemma_every_asset_is_sent(
    type_uuid: u128,
    path: Seq<char>,
    version: usize,
    entries: Seq<LoadedEntry>,
)
    ensures
        forall|k: int|
            0 <= k < entries.len() && (#[trigger] entries[k]).type_uuid().0 == type_uuid
                ==> created_for(type_uuid, path, version, entries).contains(
                create_event(path, version, entries[k]),
            ),
    decreases entries.len(),
{
    if entries.len() > 0 {
        let front = entries.drop_last();
        let last = entries.last();
        lemma_every_asset_is_sent(type_uuid, path, version, front);
        lemma_created_for_push(type_uuid, path, version, front, last);
        assert(entries == front.push(last));
        let sent = created_for(type_uuid, path, version, entries);
        let before = created_for(type_uuid, path, version, front);
        assert forall|k: int|
            0 <= k < entries.len() && (#[trigger] entries[k]).type_uuid().0
                == type_uuid implies sent.contains(create_event(path, version, entries[k])) by {
            if k < front.len() {
                assert(front[k] == entries[k]);
                let event = create_event(path, version, front[k]);
                let i = before.index_of(event);
                assert(sent[i] == event);
            } else {
                assert(sent[sent.len() - 1] == create_event(path, version, last));
            }
        }
    }
}

/// Whether every asset in `entries` is of a registered type.
pub open spec fn all_registered(state: ServerState, entries: Seq<LoadedEntry>) -> bool {
    forall|i: int|
        0 <= i < entries.len() ==> state.queues.contains_key((#[trigger] entries[i]).type_uuid().0)
}

/// The server once the load of version `version` of the file at `path` is
/// committed: no label of the source counts as committed any more, and the
/// queue of each type holds, behind what it held, the events for the
/// assets of that type. A label becomes committed again when its event
/// reaches the table; the value of a label that this load did not produce
/// stays in its table, uncommitted.
pub open spec fn after_commit(
    state: ServerState,
    path: Seq<char>,
    version: usize,
    entries: Seq<LoadedEntry>,
) -> ServerState {
    ServerState {
        sources: state.sources.insert(
            source_path_id(path).0,
            SourceState { version, committed: Set::empty() },
        ),
        queues: Map::new(
            |type_uuid: u128| state.queues.contains_key(type_uuid),
            |type_uuid: u128|
                state.queues[type_uuid] + created_for(type_uuid, path, version, entries),
        ),
        ..state
    }
}

/// The server once a load has finished with the assets `entries`. A load
/// whose version is no longer the latest of its source is dropped whole,
/// and so is one with an asset of an unregistered type; any other is
/// committed.
pub open spec fn after_finished_load(
    state: ServerState,
    path: Seq<char>,
    version: usize,
    entries: Seq<LoadedEntry>,
) -> ServerState {
    if is_current(state, source_path_id(path), version) && all_registered(state, entries) {
        after_commit(state, path, version, entries)
    } else {
        state
    }
}

/// Whether the load that has finished with `entries` can be taken in
/// without an error: its source has a record, and where its version is the
/// latest, every asset is of a registered type.
pub open spec fn can_commit(
    state: ServerState,
    path: Seq<char>,
    version: usize,
    entries: Seq<LoadedEntry>,
) -> bool {
    &&& state.sources.contains_key(source_path_id(path).0)
    &&& is_current(state, source_path_id(path), version) ==> all_registered(state, entries)
}

/// What a finished load returns: `UnknownSource` where its file was never
/// requested; the first unregistered type among its assets where its
/// version is the latest and there is such a type; nothing where it was
/// committed or dropped as stale.
pub open spec fn finished_load_result(
    state: ServerState,
    path: Seq<char>,
    version: usize,
    entries: Seq<LoadedEntry>,
    result: Result<(), AssetServerError>,
) -> bool {
    if !state.sources.contains_key(source_path_id(path).0) {
        result == Err::<(), AssetServerError>(
            AssetServerError::UnknownSource(source_path_id(path)),
        )
    } else if !all_registered(state, entries) && is_current(
        state,
        source_path_id(path),
        version,
    ) {
        exists|i: int|
            0 <= i < entries.len() && !state.queues.contains_key(
                (#[trigger] entries[i]).type_uuid().0,
            ) && (forall|k: int|
                0 <= k < i ==> state.queues.contains_key((#[trigger] entries[k]).type_uuid().0))
                && result == Err::<(), AssetServerError>(
                AssetServerError::UnregisteredAssetType(entries[i].type_uuid()),
            )
    } else {
        result is Ok
    }
}

/// A load that can be taken in without an error returns none, and one that
/// cannot returns one.
pub proof fn lemma_commit_succeeds_where_it_can(
    state: ServerState,
    path: Seq<char>,
    version: usize,
    entries: Seq<LoadedEntry>,
    result: Result<(), AssetServerError>,
)
    requires
        finished_load_result(state, path, version, entries, result),
    ensures
        result is Ok <==> can_commit(state, path, version, entries),
{
}

/// What a load brings about, whatever its loader stored: the loader fails
/// and nothing changes, or it stores some assets and the load is finished
/// with them.
pub open spec fn load_outcome(
    before: ServerState,
    path: Seq<char>,
    version: usize,
    entries: Seq<LoadedEntry>,
    after: ServerState,
    result: Result<(), AssetServerError>,
) -> bool {
    &&& after == after_finished_load(before, path, version, entries)
    &&& finished_load_result(before, path, version, entries, result)
}

/// The source records once `event` has reached the table. A created asset
/// that came from a file is committed where the event's version is still
/// the latest of its source; a freed one is no longer committed. An asset
/// that did not come from a file has no record to change.
pub open spec fn after_event_sources<T>(
    sources: Map<u64, SourceState>,
    event: AssetLifecycleEvent<T>,
) -> Map<u64, SourceState> {
    match event {
        AssetLifecycleEvent::Create(result) => match result.id {
            HandleId::AssetPathId(id) => if sources.contains_key(id.0.0) && sources[id.0.0].version
                == result.version {
                sources.insert(
                    id.0.0,
                    SourceState {
                        version: sources[id.0.0].version,
                        committed: sources[id.0.0].committed.insert(id.1.0),
                    },
                )
            } else {
                sources
            },
            HandleId::Id(_, _) => sources,
        },
        AssetLifecycleEvent::Free(handle) => match handle {
            HandleId::AssetPathId(id) => if sources.contains_key(id.0.0) {
                sources.insert(
                    id.0.0,
                    SourceState {
                        version: sources[id.0.0].version,
                        committed: sources[id.0.0].committed.remove(id.1.0),
                    },
                )
            } else {
                sources
            },
            HandleId::Id(_, _) => sources,
        },
    }
}

/// A created asset whose load is no longer the latest of its source is not
/// committed: the records stay as they were.
pub proof fn lemma_stale_event_commits_nothing<T>(
    sources: Map<u64, SourceState>,
    result: AssetLoadResult<T>,
)
    requires
        result.id is AssetPathId,
        !sources.contains_key(result.id->AssetPathId_0.0.0) || sources[result.id->AssetPathId_0.0.0].version
            != result.version,
    ensures
        after_event_sources(sources, AssetLifecycleEvent::Create(result)) == sources,
{
}

/// The table once `event` has reached it: a created asset is stored under
/// its handle, whatever its version; a freed one is taken out.
pub open spec fn after_event_table<T: Asset>(
    table: AssetsState<T>,
    event: AssetLifecycleEvent<T>,
) -> AssetsState<T> {
    match event {
        AssetLifecycleEvent::Create(result) => after_set(table, result.id, result.asset),
        AssetLifecycleEvent::Free(handle) => after_remove(table, handle),
    }
}

/// The source records once each of `events` has reached the table, in
/// order.
pub open spec fn after_events_sources<T>(
    sources: Map<u64, SourceState>,
    events: Seq<AssetLifecycleEvent<T>>,
) -> Map<u64, SourceState>
    decreases events.len(),
{
    if events.len() == 0 {
        sources
    } else {
        after_event_sources(after_events_sources(sources, events.drop_last()), events.last())
    }
}

/// The table once each of `events` has reached it, in order.
pub open spec fn after_events_table<T: Asset>(
    table: AssetsState<T>,
    events: Seq<AssetLifecycleEvent<T>>,
) -> AssetsState<T>
    decreases events.len(),
{
    if events.len() == 0 {
        table
    } else {
        after_event_table(after_events_table(table, events.drop_last()), events.last())
    }
}

/// Whether the typed event is the boxed one with its value unboxed: the
/// same kind of event for the same handle and, for a created asset, the
/// same version and the value that unboxing as a `T` gives.
pub open spec fn unboxed_event<T: Asset>(
    typed: AssetLifecycleEvent<T>,
    boxed: AssetLifecycleEvent<BoxedAsset>,
) -> bool {
    match (typed, boxed) {
        (AssetLifecycleEvent::Create(a), AssetLifecycleEvent::Create(b)) => a.id == b.id
            && a.version == b.version && b.asset.unboxes_to(Ok::<T, BoxedAsset>(a.asset)),
        (AssetLifecycleEvent::Free(a), AssetLifecycleEvent::Free(b)) => a == b,
        _ => false,
    }
}

/// Whether the boxed event cannot be unboxed for the table of `T`: it
/// creates an asset whose box gives no `T`.
pub open spec fn refused_event<T: Asset>(boxed: AssetLifecycleEvent<BoxedAsset>) -> bool {
    boxed is Create && boxed->Create_0.asset.may_fail_as::<T>()
}

/// What draining the queue of type `T` brings about, where `typed` are the
/// events that were taken out and unboxed: they are the first of the queue,
/// each with its value unboxed, and all of them have reached the table. An
/// event whose value is not a `T` ends the drain with an error; it is taken
/// out and dropped, and what stood behind it stays queued.
pub open spec fn drain_outcome<T: Asset>(
    before: ServerState,
    table_before: AssetsState<T>,
    typed: Seq<AssetLifecycleEvent<T>>,
    after: ServerState,
    table_after: AssetsState<T>,
    result: Result<(), AssetServerError>,
) -> bool {
    let key = type_uuid_of::<T>().0;
    let queue = before.queues[key];
    &&& typed.len() <= queue.len()
    &&& forall|i: int| 0 <= i < typed.len() ==> unboxed_event(#[trigger] typed[i], queue[i])
    &&& table_after == after_events_table(table_before, typed)
    &&& match result {
        Ok(_) => typed.len() == queue.len() && after == (ServerState {
            sources: after_events_sources(before.sources, typed),
            queues: before.queues.insert(key, Seq::empty()),
            ..before
        }),
        Err(error) => typed.len() < queue.len() && refused_event::<T>(queue[typed.len() as int])
            && error == AssetServerError::IncorrectHandleType && after == (ServerState {
            sources: after_events_sources(before.sources, typed),
            queues: before.queues.insert(key, queue.skip(typed.len() as int + 1)),
            ..before
        }),
    }
}

/// A table holds no handle after events that it did not hold before and
/// that no event created.
pub proof fn lemma_table_keys_come_from_events<T: Asset>(
    table: AssetsState<T>,
    events: Seq<AssetLifecycleEvent<T>>,
)
    ensures
        forall|id: HandleId| #[trigger]
            after_events_table(table, events).values.contains_key(id) ==> table.values.contains_key(
                id,
            ) || exists|i: int|
                0 <= i < events.len() && (#[trigger] events[i]) is Create && events[i]->Create_0.id
                    == id,
    decreases events.len(),
{
    if events.len() > 0 {
        let front = events.drop_last();
        lemma_table_keys_come_from_events(table, front);
        let before = after_events_table(table, front);
        assert forall|id: HandleId| #[trigger]
            after_events_table(table, events).values.contains_key(id) implies table.values.contains_key(
            id,
        ) || exists|i: int|
            0 <= i < events.len() && (#[trigger] events[i]) is Create && events[i]->Create_0.id
                == id by {
            if before.values.contains_key(id) {
                if !table.values.contains_key(id) {
                    let i = choose|i: int|
                        0 <= i < front.len() && (#[trigger] front[i]) is Create
                            && front[i]->Create_0.id == id;
                    assert(events[i] == front[i]);
                }
            } else {
                assert(events[events.len() - 1] == events.last());
            }
        }
    }
}

/// The table and the records once the queue of a committed load is
/// drained. Here the load of version `version` of the file at `path` is the
/// latest of its file and has just been committed, so that no label of the
/// file is committed; the queue of `T` holds the events of that load and no
/// others; and the drain succeeds, with `typed` as the unboxed events. Then
/// the labels of the load's assets of type `T` are committed, and no
/// others; the table holds a value under the handle of each of them, and
/// under no handle that it did not hold before or that the load did not
/// produce; and the value under a handle is what unboxing gave for the last
/// of the load's assets with that handle.
pub proof fn lemma_drained_load_is_in_the_table<T: Asset>(
    state: ServerState,
    path: Seq<char>,
    version: usize,
    entries: Seq<LoadedEntry>,
    table_before: AssetsState<T>,
    typed: Seq<AssetLifecycleEvent<T>>,
    after: ServerState,
    table_after: AssetsState<T>,
)
    requires
        state.sources.contains_key(source_path_id(path).0),
        state.sources[source_path_id(path).0] == (SourceState { version, committed: Set::empty() }),
        state.queues[type_uuid_of::<T>().0] == created_for(
            type_uuid_of::<T>().0,
            path,
            version,
            entries,
        ),
        drain_outcome(state, table_before, typed, after, table_after, Ok(())),
    ensures
        source_state(after, source_path_id(path)).version == version,
        forall|label: u64| #[trigger]
            source_state(after, source_path_id(path)).committed.contains(label) <==> exists|k: int|
                0 <= k < entries.len() && (#[trigger] entries[k]).type_uuid() == type_uuid_of::<T>()
                    && label_id(entries[k].label) == LabelId(label),
        forall|k: int|
            0 <= k < entries.len() && (#[trigger] entries[k]).type_uuid() == type_uuid_of::<T>()
                ==> table_after.values.contains_key(
                HandleId::AssetPathId(asset_path_id(path, entries[k].label)),
            ),
        forall|id: HandleId| #[trigger]
            table_after.values.contains_key(id) ==> table_before.values.contains_key(id)
                || exists|k: int|
                0 <= k < entries.len() && (#[trigger] entries[k]).type_uuid() == type_uuid_of::<T>()
                    && id == HandleId::AssetPathId(asset_path_id(path, entries[k].label)),
        typed.len() == state.queues[type_uuid_of::<T>().0].len(),
        forall|i: int|
            0 <= i < typed.len() && (forall|j: int|
                i < j < typed.len() ==> (#[trigger] typed[j])->Create_0.id != typed[i]->Create_0.id)
                ==> state.queues[type_uuid_of::<T>().0][i]->Create_0.asset.unboxes_to(
                Ok::<T, BoxedAsset>(table_after.values[(#[trigger] typed[i])->Create_0.id]),
            ),
{
    let key = type_uuid_of::<T>().0;
    let source = source_path_id(path);
    let queue = state.queues[key];
    lemma_created_events_are_of_their_load(key, path, version, entries);
    lemma_every_asset_is_sent(key, path, version, entries);
    assert forall|i: int| 0 <= i < typed.len() implies (#[trigger] typed[i]) is Create
        && typed[i]->Create_0.version == version && typed[i]->Create_0.id is AssetPathId
        && typed[i]->Create_0.id->AssetPathId_0.0 == source by {
        assert(unboxed_event(typed[i], queue[i]));
        let k = choose|k: int|
            0 <= k < entries.len() && entries[k].type_uuid().0 == key && queue[i] == create_event(
                path,
                version,
                #[trigger] entries[k],
            );
    }
    lemma_committed_assets_reach_table(state.sources, table_before, source, version, typed);
    lemma_table_keys_come_from_events(table_before, typed);
    let committed = source_state(after, source).committed;
    assert forall|label: u64| #[trigger]
        committed.contains(label) <==> exists|k: int|
            0 <= k < entries.len() && (#[trigger] entries[k]).type_uuid() == type_uuid_of::<T>()
                && label_id(entries[k].label) == LabelId(label) by {
        let wanted = HandleId::AssetPathId(AssetPathId(source, LabelId(label)));
        if committed.contains(label) {
            let i = choose|i: int|
                0 <= i < typed.len() && (#[trigger] typed[i])->Create_0.id == wanted;
            assert(unboxed_event(typed[i], queue[i]));
            let k = choose|k: int|
                0 <= k < entries.len() && entries[k].type_uuid().0 == key && queue[i]
                    == create_event(path, version, #[trigger] entries[k]);
            assert(entries[k].type_uuid() == type_uuid_of::<T>());
            assert(label_id(entries[k].label) == LabelId(label));
        }
        if exists|k: int|
            0 <= k < entries.len() && (#[trigger] entries[k]).type_uuid() == type_uuid_of::<T>()
                && label_id(entries[k].label) == LabelId(label) {
            let k = choose|k: int|
                0 <= k < entries.len() && (#[trigger] entries[k]).type_uuid() == type_uuid_of::<
                    T,
                >() && label_id(entries[k].label) == LabelId(label);
            let event = create_event(path, version, entries[k]);
            assert(queue.contains(event));
            let i = queue.index_of(event);
            assert(unboxed_event(typed[i], queue[i]));
            assert(typed[i]->Create_0.id == wanted);
        }
    }
    assert forall|k: int|
        0 <= k < entries.len() && (#[trigger] entries[k]).type_uuid() == type_uuid_of::<
            T,
        >() implies table_after.values.contains_key(
        HandleId::AssetPathId(asset_path_id(path, entries[k].label)),
    ) by {
        let event = create_event(path, version, entries[k]);
        assert(queue.contains(event));
        let i = queue.index_of(event);
        assert(unboxed_event(typed[i], queue[i]));
    }
    assert forall|id: HandleId| #[trigger]
        table_after.values.contains_key(id) implies table_before.values.contains_key(id)
        || exists|k: int|
        0 <= k < entries.len() && (#[trigger] entries[k]).type_uuid() == type_uuid_of::<T>() && id
            == HandleId::AssetPathId(asset_path_id(path, entries[k].label)) by {
        if !table_before.values.contains_key(id) {
            let i = choose|i: int|
                0 <= i < typed.len() && (#[trigger] typed[i]) is Create && typed[i]->Create_0.id
                    == id;
            assert(unboxed_event(typed[i], queue[i]));
            let k = choose|k: int|
                0 <= k < entries.len() && entries[k].type_uuid().0 == key && queue[i]
                    == create_event(path, version, #[trigger] entries[k]);
            assert(entries[k].type_uuid() == type_uuid_of::<T>());
        }
    }
    assert forall|i: int|
        0 <= i < typed.len() && (forall|j: int|
            i < j < typed.len() ==> (#[trigger] typed[j])->Create_0.id
                != typed[i]->Create_0.id) implies queue[i]->Create_0.asset.unboxes_to(
        Ok::<T, BoxedAsset>(table_after.values[(#[trigger] typed[i])->Create_0.id]),
    ) by {
        assert(unboxed_event(typed[i], queue[i]));
    }
}

/// A queue of texts is drained to its end: where every created asset in
/// the queue of `TextAsset` holds a text, no event is refused, and each
/// asset reaches the table with the text that its box held.
pub proof fn lemma_texts_are_drained(
    before: ServerState,
    table_before: AssetsState<TextAsset>,
    typed: Seq<AssetLifecycleEvent<TextAsset>>,
    after: ServerState,
    table_after: AssetsState<TextAsset>,
    result: Result<(), AssetServerError>,
)
    requires
        drain_outcome(before, table_before, typed, after, table_after, result),
        forall|i: int|
            0 <= i < before.queues[type_uuid_of::<TextAsset>().0].len() && (
            #[trigger] before.queues[type_uuid_of::<TextAsset>().0][i]) is Create
                ==> before.queues[type_uuid_of::<TextAsset>().0][i]->Create_0.asset.spec_text() is Some,
    ensures
        result is Ok,
        typed.len() == before.queues[type_uuid_of::<TextAsset>().0].len(),
        forall|i: int|
            0 <= i < typed.len() && (#[trigger] typed[i]) is Create ==> Some(
                typed[i]->Create_0.asset.0@,
            ) == before.queues[type_uuid_of::<TextAsset>().0][i]->Create_0.asset.spec_text(),
{
    let queue = before.queues[type_uuid_of::<TextAsset>().0];
    if result is Err {
        let refused = queue[typed.len() as int];
        let boxed = refused->Create_0.asset;
        let back = choose|back: BoxedAsset| #[trigger]
            boxed.unboxes_to(Err::<TextAsset, BoxedAsset>(back));
        lemma_unboxed_text(boxed, Err::<TextAsset, BoxedAsset>(back));
    }
    assert forall|i: int| 0 <= i < typed.len() && (#[trigger] typed[i]) is Create implies Some(
        typed[i]->Create_0.asset.0@,
    ) == queue[i]->Create_0.asset.spec_text() by {
        assert(unboxed_event(typed[i], queue[i]));
        lemma_unboxed_text(
            queue[i]->Create_0.asset,
            Ok::<TextAsset, BoxedAsset>(typed[i]->Create_0.asset),
        );
    }
}

/// A text file that was loaded is found in the table with its text. Here
/// the load of version `version` of the file at `path` has stored, in a
/// fresh context, one asset without label in a box that holds `text`, as
/// the loader of text files does; the load is the latest
/// of its file and is committed into a server whose queue of texts was
/// empty; then that queue is drained. The drain succeeds, the table holds
/// an asset of exactly that text under the file's handle, and the asset is
/// committed.
pub proof fn lemma_loaded_text_reaches_table(
    state: ServerState,
    path: Seq<char>,
    version: usize,
    boxed: BoxedAsset,
    text: Seq<char>,
    table_before: AssetsState<TextAsset>,
    typed: Seq<AssetLifecycleEvent<TextAsset>>,
    after: ServerState,
    table_after: AssetsState<TextAsset>,
    result: Result<(), AssetServerError>,
)
    requires
        boxed.spec_type_uuid() == type_uuid_of::<TextAsset>(),
        boxed.spec_text() == Some(text),
        is_current(state, source_path_id(path), version),
        state.queues.contains_key(type_uuid_of::<TextAsset>().0),
        state.queues[type_uuid_of::<TextAsset>().0].len() == 0,
        drain_outcome(
            after_finished_load(
                state,
                path,
                version,
                with_entry(
                    Seq::empty(),
                    LoadedEntry { label: None, value: boxed, dependencies: Seq::empty() },
                ),
            ),
            table_before,
            typed,
            after,
            table_after,
            result,
        ),
    ensures
        result is Ok,
        table_after.values.contains_key(HandleId::AssetPathId(asset_path_id(path, None))),
        table_after.values[HandleId::AssetPathId(asset_path_id(path, None))].0@ == text,
        is_committed(after, asset_path_id(path, None)),
        source_state(after, source_path_id(path)).version == version,
{
    let key = type_uuid_of::<TextAsset>().0;
    let entry = LoadedEntry { label: None, value: boxed, dependencies: Seq::empty() };
    let entries = seq![entry];
    assert(with_entry(Seq::empty(), entry) == entries) by {
        crate::loader::entry_labels(Seq::<LoadedEntry>::empty()).index_of_first_ensures(None);
    }
    let committed = after_finished_load(state, path, version, entries);
    assert(all_registered(state, entries));
    assert(committed == after_commit(state, path, version, entries));
    let sent = created_for(key, path, version, entries);
    assert(sent == seq![create_event(path, version, entry)]) by {
        lemma_created_for_push(key, path, version, Seq::<LoadedEntry>::empty(), entry);
        assert(Seq::<LoadedEntry>::empty().push(entry) == entries);
        reveal(Seq::filter);
        assert(created_for(key, path, version, Seq::<LoadedEntry>::empty()).len() == 0);
    }
    let queue = committed.queues[key];
    assert(queue == sent);
    assert(queue[0] == create_event(path, version, entry));
    lemma_texts_are_drained(committed, table_before, typed, after, table_after, result);
    assert(typed.len() == 1);
    assert(unboxed_event(typed[0], queue[0]));
    assert(typed.drop_last().len() == 0);
    assert(typed.last() == typed[0]);
    assert(after_events_table(table_before, typed.drop_last()) == table_before);
    assert(after_events_table(table_before, typed) == after_event_table(
        after_events_table(table_before, typed.drop_last()),
        typed.last(),
    ));
    assert(table_after == after_event_table(table_before, typed[0]));
    assert(after_events_sources(committed.sources, typed.drop_last()) == committed.sources);
    assert(after_events_sources(committed.sources, typed) == after_event_sources(
        after_events_sources(committed.sources, typed.drop_last()),
        typed.last(),
    ));
    assert(after.sources == after_event_sources(committed.sources, typed[0]));
}

/// The server after `count` requests for the asset at `path`, one after
/// the other.
pub open spec fn after_loads(
    state: ServerState,
    path: (Seq<char>, Option<Seq<char>>),
    count: nat,
) -> ServerState
    decreases count,
{
    if count == 0 {
        state
    } else {
        after_load(after_loads(state, path, (count - 1) as nat), path)
    }
}

/// Requests for a committed asset change nothing, however often they are
/// made: no version is issued, no load is recorded as pending, and the
/// queues, from which the tables are filled, hold what they held.
pub proof fn lemma_committed_load_is_idempotent(
    state: ServerState,
    path: (Seq<char>, Option<Seq<char>>),
    count: nat,
)
    requires
        is_committed(state, asset_path_id(path.0, path.1)),
    ensures
        after_loads(state, path, count) == state,
    decreases count,
{
    if count > 0 {
        lemma_committed_load_is_idempotent(state, path, (count - 1) as nat);
    }
}

/// The version that a request for the asset at `path` issues; none where
/// the asset is committed.
pub open spec fn issued_version(state: ServerState, path: (Seq<char>, Option<Seq<char>>)) -> Option<
    usize,
> {
    let id = asset_path_id(path.0, path.1);
    if is_committed(state, id) {
        None
    } else {
        Some((source_state(state, id.0).version + 1) as usize)
    }
}

/// A request that issues a version records it as the last pending load and
/// as the source's latest version, which is one more than before.
pub proof fn lemma_load_issues_next_version(
    state: ServerState,
    path: (Seq<char>, Option<Seq<char>>),
)
    requires
        can_load(state, asset_path_id(path.0, path.1)),
        issued_version(state, path) is Some,
    ensures
        issued_version(state, path)->Some_0 == source_state(state, source_path_id(path.0)).version
            + 1,
        after_load(state, path).pending.last() == (PendingLoad {
            path,
            version: issued_version(state, path)->Some_0,
        }),
        is_current(
            after_load(state, path),
            source_path_id(path.0),
            issued_version(state, path)->Some_0,
        ),
{
}

/// Whether no source has a lower version in `after` than in `before`.
pub open spec fn versions_kept(before: ServerState, after: ServerState) -> bool {
    forall|source: SourcePathId|
        source_state(before, source).version <= (#[trigger] source_state(after, source)).version
}

/// What leaves the source records alone keeps the versions: registering a
/// loader or an asset type, and handing out the pending loads.
pub proof fn lemma_same_sources_keep_versions(before: ServerState, after: ServerState)
    requires
        after.sources == before.sources,
    ensures
        versions_kept(before, after),
{
}

/// Versions that are kept step by step are kept over the whole run.
pub proof fn lemma_versions_kept_in_turn(first: ServerState, second: ServerState, third: ServerState)
    requires
        versions_kept(first, second),
        versions_kept(second, third),
    ensures
        versions_kept(first, third),
{
    assert forall|source: SourcePathId|
        source_state(first, source).version <= (#[trigger] source_state(third, source)).version by {
        assert(source_state(first, source).version <= source_state(second, source).version);
    }
}

/// No request lowers the version of a source.
pub proof fn lemma_load_keeps_versions(state: ServerState, path: (Seq<char>, Option<Seq<char>>))
    requires
        can_load(state, asset_path_id(path.0, path.1)),
    ensures
        versions_kept(state, after_load(state, path)),
{
}

/// No finished load lowers the version of a source.
pub proof fn lemma_finished_load_keeps_versions(
    state: ServerState,
    path: Seq<char>,
    version: usize,
    entries: Seq<LoadedEntry>,
)
    ensures
        versions_kept(state, after_finished_load(state, path, version, entries)),
{
}

/// No event that reaches a table changes the version of a source.
pub proof fn lemma_events_keep_versions<T>(
    state: ServerState,
    events: Seq<AssetLifecycleEvent<T>>,
)
    ensures
        versions_kept(
            state,
            ServerState { sources: after_events_sources(state.sources, events), ..state },
        ),
        forall|source: u64| #[trigger]
            state.sources.contains_key(source) <==> after_events_sources(
                state.sources,
                events,
            ).contains_key(source),
    decreases events.len(),
{
    if events.len() > 0 {
        lemma_events_keep_versions(state, events.drop_last());
        let before = ServerState {
            sources: after_events_sources(state.sources, events.drop_last()),
            ..state
        };
        let after = ServerState { sources: after_events_sources(state.sources, events), ..state };
        assert forall|source: SourcePathId|
            source_state(state, source).version <= (#[trigger] source_state(after, source)).version by {
            assert(source_state(state, source).version <= source_state(before, source).version);
        }
    }
}

/// Of two requests for assets of one file that both issue a version, the
/// later issues the higher, whatever happened between them that kept the
/// versions.
pub proof fn lemma_issued_versions_increase(
    first: ServerState,
    first_path: (Seq<char>, Option<Seq<char>>),
    second: ServerState,
    second_path: (Seq<char>, Option<Seq<char>>),
)
    requires
        first_path.0 == second_path.0,
        can_load(first, asset_path_id(first_path.0, first_path.1)),
        can_load(second, asset_path_id(second_path.0, second_path.1)),
        issued_version(first, first_path) is Some,
        issued_version(second, second_path) is Some,
        versions_kept(after_load(first, first_path), second),
    ensures
        issued_version(first, first_path)->Some_0 < issued_version(second, second_path)->Some_0,
{
    let source = source_path_id(first_path.0);
    lemma_load_issues_next_version(first, first_path);
    assert(source_state(after_load(first, first_path), source).version <= source_state(
        second,
        source,
    ).version);
}

/// A finished load whose version is not the latest of its source is
/// dropped.
pub proof fn lemma_stale_load_is_dropped(
    state: ServerState,
    path: Seq<char>,
    version: usize,
    entries: Seq<LoadedEntry>,
)
    requires
        !is_current(state, source_path_id(path), version),
    ensures
        after_finished_load(state, path, version, entries) == state,
        state.sources.contains_key(source_path_id(path).0) ==> can_commit(
            state,
            path,
            version,
            entries,
        ),
{
}

/// Of two loads of one file that overlap, only the later is committed, in
/// whichever order they finish. Here `state` is the server before the two
/// requests, `earlier` and `later` are what the two were asked for, and
/// `earlier_entries` and `later_entries` what the two loads produce.
pub proof fn lemma_last_request_wins(
    state: ServerState,
    path: Seq<char>,
    earlier: Option<Seq<char>>,
    later: Option<Seq<char>>,
    earlier_entries: Seq<LoadedEntry>,
    later_entries: Seq<LoadedEntry>,
)
    requires
        can_load(state, asset_path_id(path, earlier)),
        issued_version(state, (path, earlier)) is Some,
        can_load(after_load(state, (path, earlier)), asset_path_id(path, later)),
        issued_version(after_load(state, (path, earlier)), (path, later)) is Some,
        all_registered(state, later_entries),
    ensures
        ({
            let requested = after_load(after_load(state, (path, earlier)), (path, later));
            let earlier_version = issued_version(state, (path, earlier))->Some_0;
            let later_version = issued_version(
                after_load(state, (path, earlier)),
                (path, later),
            )->Some_0;
            let committed = after_commit(requested, path, later_version, later_entries);
            &&& earlier_version < later_version
            &&& after_finished_load(
                after_finished_load(requested, path, later_version, later_entries),
                path,
                earlier_version,
                earlier_entries,
            ) == committed
            &&& after_finished_load(
                after_finished_load(requested, path, earlier_version, earlier_entries),
                path,
                later_version,
                later_entries,
            ) == committed
            &&& source_state(committed, source_path_id(path)) == (SourceState {
                version: later_version,
                committed: Set::empty(),
            })
            &&& forall|type_uuid: u128| #[trigger]
                state.queues.contains_key(type_uuid) ==> committed.queues[type_uuid]
                    == state.queues[type_uuid] + created_for(
                    type_uuid,
                    path,
                    later_version,
                    later_entries,
                )
        }),
{
    let source = source_path_id(path);
    let first = after_load(state, (path, earlier));
    let requested = after_load(first, (path, later));
    lemma_load_issues_next_version(state, (path, earlier));
    lemma_load_issues_next_version(first, (path, later));
    let later_version = issued_version(first, (path, later))->Some_0;
    assert(is_current(requested, source, later_version));
    assert(requested.queues == state.queues);
    assert(all_registered(requested, later_entries));
    let committed = after_commit(requested, path, later_version, later_entries);
    assert(is_current(committed, source, later_version));
}

/// The records and the table once the events of a committed load have
/// reached the table, where `events` are those events with their values
/// unboxed: every one of them is a created asset of the file, of the
/// load's version. Each label among them is committed then, and the table
/// holds, under the handle of each, the value of the last event for it.
pub proof fn lemma_committed_assets_reach_table<T: Asset>(
    sources: Map<u64, SourceState>,
    table: AssetsState<T>,
    source: SourcePathId,
    version: usize,
    events: Seq<AssetLifecycleEvent<T>>,
)
    requires
        sources.contains_key(source.0),
        sources[source.0].version == version,
        forall|i: int|
            0 <= i < events.len() ==> (#[trigger] events[i]) is Create
                && events[i]->Create_0.version == version && events[i]->Create_0.id is AssetPathId
                && events[i]->Create_0.id->AssetPathId_0.0 == source,
    ensures
        after_events_sources(sources, events).contains_key(source.0),
        after_events_sources(sources, events)[source.0].version == version,
        forall|label: u64| #[trigger]
            after_events_sources(sources, events)[source.0].committed.contains(label) <==> (
            sources[source.0].committed.contains(label) || exists|i: int|
                0 <= i < events.len() && (#[trigger] events[i])->Create_0.id == HandleId::AssetPathId(
                    AssetPathId(source, LabelId(label)),
                )),
        forall|i: int|
            0 <= i < events.len() ==> after_events_table(table, events).values.contains_key(
                (#[trigger] events[i])->Create_0.id,
            ),
        forall|i: int|
            0 <= i < events.len() && (forall|k: int|
                i < k < events.len() ==> (#[trigger] events[k])->Create_0.id
                    != events[i]->Create_0.id) ==> after_events_table(
                table,
                events,
            ).values[(#[trigger] events[i])->Create_0.id] == events[i]->Create_0.asset,
        forall|id: HandleId|
            table.values.contains_key(id) ==> #[trigger] after_events_table(
                table,
                events,
            ).values.contains_key(id),
    decreases events.len(),
{
    if events.len() > 0 {
        let front = events.drop_last();
        let last = events.last();
        lemma_committed_assets_reach_table(sources, table, source, version, front);
        let before = after_events_sources(sources, front);
        let after = after_events_sources(sources, events);
        let id = last->Create_0.id->AssetPathId_0;
        assert(events[events.len() - 1] == last);
        assert(after == before.insert(
            source.0,
            SourceState { version, committed: before[source.0].committed.insert(id.1.0) },
        ));
        assert forall|label: u64| #[trigger]
            after[source.0].committed.contains(label) <==> (sources[source.0].committed.contains(
                label,
            ) || exists|i: int|
                0 <= i < events.len() && (#[trigger] events[i])->Create_0.id == HandleId::AssetPathId(
                    AssetPathId(source, LabelId(label)),
                )) by {
            let wanted = HandleId::AssetPathId(AssetPathId(source, LabelId(label)));
            if after[source.0].committed.contains(label) {
                if label == id.1.0 {
                    assert(events[events.len() - 1]->Create_0.id == wanted);
                } else {
                    assert(before[source.0].committed.contains(label));
                    if !sources[source.0].committed.contains(label) {
                        let i = choose|i: int|
                            0 <= i < front.len() && (#[trigger] front[i])->Create_0.id == wanted;
                        assert(events[i] == front[i]);
                    }
                }
            }
            if exists|i: int| 0 <= i < events.len() && (#[trigger] events[i])->Create_0.id == wanted {
                let i = choose|i: int|
                    0 <= i < events.len() && (#[trigger] events[i])->Create_0.id == wanted;
                if i < front.len() {
                    assert(front[i] == events[i]);
                    assert(before[source.0].committed.contains(label));
                }
            }
        }
        let table_before = after_events_table(table, front);
        let table_after = after_events_table(table, events);
        assert(table_after == after_set(table_before, last->Create_0.id, last->Create_0.asset));
        assert forall|i: int| 0 <= i < events.len() implies table_after.values.contains_key(
            (#[trigger] events[i])->Create_0.id,
        ) by {
            if i < front.len() {
                assert(front[i] == events[i]);
            }
        }
        assert forall|i: int|
            0 <= i < events.len() && (forall|k: int|
                i < k < events.len() ==> (#[trigger] events[k])->Create_0.id
                    != events[i]->Create_0.id) implies table_after.values[(#[trigger] events[i])->Create_0.id]
            == events[i]->Create_0.asset by {
            if i < front.len() {
                assert(front[i] == events[i]);
                assert(events[events.len() - 1]->Create_0.id != events[i]->Create_0.id);
                assert forall|k: int| i < k < front.len() implies (#[trigger] front[k])->Create_0.id
                    != front[i]->Create_0.id by {
                    assert(front[k] == events[k]);
                }
            }
        }
    }
}

/// The text of each of the extensions in `file_ext`.
pub open spec fn extension_texts(file_ext: Seq<&str>) -> Seq<Seq<char>> {
    file_ext.map_values(|extension: &str| extension@)
}

/// The registry of loaders once each of `extensions` leads to the loader at
/// `index`, whatever it led to before; the other extensions lead where they
/// led.
pub open spec fn leading_to(
    loaders: Map<Seq<char>, usize>,
    extensions: Seq<Seq<char>>,
    index: usize,
) -> Map<Seq<char>, usize> {
    Map::new(
        |extension: Seq<char>| loaders.contains_key(extension) || extensions.contains(extension),
        |extension: Seq<char>|
            if extensions.contains(extension) {
                index
            } else {
                loaders[extension]
            },
    )
}

/// The server once a loader was registered for `extensions`, where
/// `loader_list` is the list of loaders with the new one at its end: each of
/// the extensions leads to the new loader.
pub open spec fn after_register(
    state: ServerState,
    extensions: Seq<Seq<char>>,
    loader_list: Seq<Box<dyn AssetLoader>>,
) -> ServerState {
    ServerState {
        loaders: leading_to(state.loaders, extensions, state.loader_list.len() as usize),
        loader_list,
        ..state
    }
}

/// The loader that serves the file at `path`: the one registered for the
/// path's extension, if the path has an extension and a loader is registered
/// for it.
pub open spec fn loader_for(state: ServerState, path: Seq<char>) -> Option<usize> {
    match path_extension(path) {
        Some(extension) => if state.loaders.contains_key(extension) {
            Some(state.loaders[extension])
        } else {
            None
        },
        None => None,
    }
}

} // verus!
