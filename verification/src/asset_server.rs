//! The bookkeeping of load requests and finished loads.
//!
//! The server owns, for every source file, the number of loads issued and
//! the labels that are committed; for every registered asset type, the queue
//! of finished assets; and the loaders, each under the file extensions it
//! was registered for. A load request either finds its asset committed, and
//! changes nothing, or issues a new version of the file, which is recorded
//! as a pending load for the caller to run. A finished load is committed
//! only while its version is still the file's latest.

use crate::asset::source_path_id;
use crate::asset::type_uuid;
use crate::asset::type_uuid_of;
use crate::asset::Asset;
use crate::asset::AssetLoader;
use crate::asset::AssetPath;
use crate::asset::AssetPathId;
use crate::asset::LoaderFailure;
use crate::asset::SourcePathId;
use crate::assets::Assets;
use crate::assets::AssetsState;
use crate::handle::Handle;
use crate::handle::HandleId;
use crate::handle::HandleUntyped;
use crate::handle::TypeUuid;
use crate::loader::create_event;
use crate::loader::queue_is_of;
use crate::loader::AssetLifecycle;
use crate::loader::AssetLifecycleChannel;
use crate::loader::AssetLifecycleEvent;
use crate::loader::AssetLoadResult;
use crate::loader::BoxedAsset;
use crate::loader::FinishedAsset;
use crate::loader::LoadContext;
use crate::loader::LoadedEntry;
use crate::server_state::after_commit;
use crate::server_state::after_event_sources;
use crate::server_state::after_event_table;
use crate::server_state::after_events_sources;
use crate::server_state::after_events_table;
use crate::server_state::after_finished_load;
use crate::server_state::after_load;
use crate::server_state::after_register;
use crate::server_state::all_registered;
use crate::server_state::can_commit;
use crate::server_state::can_load;
use crate::server_state::drain_outcome;
use crate::server_state::extension_texts;
use crate::server_state::finished_load_result;
use crate::server_state::is_committed;
use crate::server_state::is_current;
use crate::server_state::leading_to;
use crate::server_state::lemma_created_for_push;
use crate::server_state::load_outcome;
use crate::server_state::loader_for;
use crate::server_state::refused_event;
use crate::server_state::unboxed_event;
use crate::server_state::source_state;
use crate::server_state::PendingLoad;
use crate::server_state::ServerState;
use crate::source::SourceInfo;
use crate::source::SourceState;
use crate::table::lemma_table_at;
use crate::table::lemma_table_push;
use crate::table::lemma_table_update;
use crate::table::table_of;
use crate::AssetServerSettings;
use std::collections::HashMap;
use std::path::Path;
use vstd::prelude::*;

verus! {

broadcast use vstd::std_specs::hash::group_hash_axioms;

/// Why a file could not be read.
#[derive(Debug)]
pub enum AssetIoError {
    /// There is no file at the path.
    NotFound(String),
    /// Reading failed; the text says how.
    Io(String),
    /// The path could not be watched for changes.
    PathWatchError(String),
}

/// What can go wrong between a load request and its result.
#[derive(Debug)]
pub enum AssetServerError {
    /// The folder that assets are read from is not a directory.
    AssetFolderNotADirectory(String),
    /// No loader is registered for the file's extension.
    MissingAssetLoader(Option<String>),
    /// A handle was converted to a type that it does not stand for, or a
    /// value reached the table of another type than its own.
    IncorrectHandleType,
    /// The loader gave up on the file.
    AssetLoaderError(LoaderFailure),
    /// A loader produced an asset of a type that was never registered.
    UnregisteredAssetType(TypeUuid),
    /// A load finished for a file that was never requested.
    UnknownSource(SourcePathId),
    /// Reading the file failed.
    Io(AssetIoError),
}

/// A load that was issued and is to be run: the file to read, the label that
/// was asked for, and the version that the file has since this request.
pub struct LoadRequest {
    pub path: AssetPath,
    pub version: usize,
}

impl View for LoadRequest {
    type V = PendingLoad;

    open spec fn view(&self) -> PendingLoad {
        PendingLoad { path: self.path@, version: self.version }
    }
}

/// The asset server.
pub struct AssetServer {
    asset_sources: HashMap<u64, SourceInfo>,
    asset_lifecycles: HashMap<u128, AssetLifecycleChannel>,
    loader_extensions: Vec<String>,
    loader_indices: Vec<usize>,
    loader_list: Vec<Box<dyn AssetLoader>>,
    root_path: String,
    pending: Vec<LoadRequest>,
}

/// The text of each of `extensions`.
spec fn extension_views(extensions: Seq<String>) -> Seq<Seq<char>> {
    extensions.map_values(|extension: String| extension@)
}

impl View for AssetServer {
    type V = ServerState;

    closed spec fn view(&self) -> ServerState {
        ServerState {
            sources: self.asset_sources@.map_values(|info: SourceInfo| info@),
            loaders: table_of(extension_views(self.loader_extensions@), self.loader_indices@),
            loader_list: self.loader_list@,
            queues: self.asset_lifecycles@.map_values(
                |channel: AssetLifecycleChannel| channel.waiting(),
            ),
            pending: self.pending@.map_values(|request: LoadRequest| request@),
            root_path: self.root_path@,
        }
    }
}

/// The extension of the file that `path` names, as `std::path::Path` reads
/// it; none where the path has no file name, the name has no extension, or
/// the extension is not Unicode.
pub uninterp spec fn path_extension(path: Seq<char>) -> Option<Seq<char>>;

/// `Path::extension` of `path`, as a string where it is Unicode.
#[verifier::external_body]
fn extension_of(path: &str) -> (extension: Option<String>)
    ensures
        path_extension(path@) == match extension {
            Some(text) => Some(text@),
            None => None,
        },
{
    match Path::new(path).extension() {
        Some(extension) => match extension.to_str() {
            Some(text) => Some(text.to_owned()),
            None => None,
        },
        None => None,
    }
}

/// The path that `std::path::Path::join` makes of the folder `root` and the
/// path `path`, as text.
pub uninterp spec fn joined_path(root: Seq<char>, path: Seq<char>) -> Seq<char>;

/// `Path::new(root).join(path)`, as a string. Both parts are Unicode, so
/// the joined path is too.
#[verifier::external_body]
fn join_paths(root: &str, path: &str) -> (joined: String)
    ensures
        joined@ == joined_path(root@, path@),
{
    Path::new(root).join(path).to_string_lossy().into_owned()
}

impl AssetServer {
    /// What holds of every server: each extension is registered once, for a
    /// loader that is in the list, and each asset type has the queue that
    /// was made for it.
    pub closed spec fn wf(&self) -> bool {
        &&& extension_views(self.loader_extensions@).no_duplicates()
        &&& self.loader_extensions@.len() == self.loader_indices@.len()
        &&& forall|i: int|
            0 <= i < self.loader_indices@.len() ==> (#[trigger] self.loader_indices@[i])
                < self.loader_list@.len()
        &&& forall|key: u128| #[trigger]
            self.asset_lifecycles@.contains_key(key) ==> self.asset_lifecycles@[key].asset_type()
                == TypeUuid(key) && queue_is_of(
                self.asset_lifecycles@[key].waiting(),
                TypeUuid(key),
            )
    }

    /// Every queue holds assets of its own type only: an asset is sent to
    /// the queue of the type whose identifier it carries.
    pub proof fn lemma_queues_hold_their_type(&self)
        requires
            self.wf(),
        ensures
            forall|key: u128| #[trigger]
                self@.queues.contains_key(key) ==> queue_is_of(self@.queues[key], TypeUuid(key)),
    {
        assert forall|key: u128| #[trigger] self@.queues.contains_key(key) implies queue_is_of(
            self@.queues[key],
            TypeUuid(key),
        ) by {
            assert(self.asset_lifecycles@.contains_key(key));
        }
    }

    /// A server without sources, loaders or asset types, which reads below
    /// `root_path`.
    pub fn new(root_path: String) -> (server: Self)
        ensures
            server.wf(),
            server@ == (ServerState {
                sources: Map::empty(),
                loaders: Map::empty(),
                loader_list: Seq::empty(),
                queues: Map::empty(),
                pending: Seq::empty(),
                root_path: root_path@,
            }),
    {
        let server = AssetServer {
            asset_sources: HashMap::new(),
            asset_lifecycles: HashMap::new(),
            loader_extensions: Vec::new(),
            loader_indices: Vec::new(),
            loader_list: Vec::new(),
            root_path,
            pending: Vec::new(),
        };
        assert(server@.sources == Map::<u64, SourceState>::empty());
        assert(server@.loaders == Map::<Seq<char>, usize>::empty());
        assert(server@.queues == Map::<u128, Seq<AssetLifecycleEvent<BoxedAsset>>>::empty());
        assert(server@.pending == Seq::<PendingLoad>::empty());
        assert(server@.loader_list == Seq::<Box<dyn AssetLoader>>::empty());
        server
    }

    /// The folder that paths are read from.
    pub fn root_path(&self) -> (root: &str)
        ensures
            root@ == self@.root_path,
    {
        self.root_path.as_str()
    }

    /// A server without sources, loaders or asset types, which reads below
    /// the folder that `settings` name.
    pub fn with_settings(settings: AssetServerSettings) -> (server: Self)
        ensures
            server.wf(),
            server@ == (ServerState {
                sources: Map::empty(),
                loaders: Map::empty(),
                loader_list: Seq::empty(),
                queues: Map::empty(),
                pending: Seq::empty(),
                root_path: settings.asset_folder@,
            }),
    {
        Self::new(settings.asset_folder)
    }

    /// Where the file of the asset at `path` is read: the asset's path below
    /// the server's folder.
    pub fn full_path(&self, path: &AssetPath) -> (full: String)
        ensures
            full@ == joined_path(self@.root_path, path.spec_path()),
    {
        join_paths(self.root_path.as_str(), path.path())
    }

    /// The latest version issued of the source `source`; 0 where none was.
    pub fn source_version(&self, source: SourcePathId) -> (version: usize)
        ensures
            version == source_state(self@, source).version,
    {
        match self.asset_sources.get(&source.0) {
            Some(info) => info.version,
            None => 0,
        }
    }

    /// Whether the asset `id` is committed.
    pub fn is_committed(&self, id: AssetPathId) -> (committed: bool)
        ensures
            committed == is_committed(self@, id),
    {
        match self.asset_sources.get(&id.0.0) {
            Some(info) => info.committed_assets.contains(&id.1.0),
            None => false,
        }
    }

    /// Whether a request for the asset at `path` can be served.
    pub fn can_load(&self, path: &AssetPath) -> (can: bool)
        ensures
            can == can_load(self@, path.spec_id()),
    {
        let id = path.get_id();
        self.is_committed(id) || self.source_version(id.0) < usize::MAX
    }

    /// Requests the asset at `path` and returns its handle at once. Where the
    /// asset is committed nothing changes; else the next version of the
    /// source is issued and the load is recorded as pending.
    pub fn load_untyped(&mut self, path: AssetPath) -> (handle: HandleUntyped)
        requires
            old(self).wf(),
            can_load(old(self)@, path.spec_id()),
        ensures
            final(self).wf(),
            handle.id == HandleId::AssetPathId(path.spec_id()),
            final(self)@ == after_load(old(self)@, path@),
    {
        let path_id: AssetPathId = path.get_id();
        let source = path_id.get_source_id();
        let mut info = match self.asset_sources.remove(&source.0) {
            Some(info) => info,
            None => SourceInfo::new(),
        };
        if info.committed_assets.contains(&path_id.get_label_id().0) {
            self.asset_sources.insert(source.0, info);
            assert(self.asset_sources@ == old(self).asset_sources@);
            return HandleUntyped { id: HandleId::from(path_id) };
        }
        info.version = info.version + 1;
        let version = info.version;
        self.asset_sources.insert(source.0, info);
        self.pending.push(LoadRequest { path, version });
        proof {
            let after = after_load(old(self)@, path@);
            assert(self@.sources == after.sources);
            assert(self@.pending == after.pending);
        }
        HandleUntyped { id: HandleId::from(path_id) }
    }

    /// Requests the asset at `path` as `load_untyped` does, where the
    /// request can be served; where the source's version cannot be counted
    /// up any more, nothing changes and no handle is returned.
    pub fn try_load_untyped(&mut self, path: AssetPath) -> (handle: Option<HandleUntyped>)
        requires
            old(self).wf(),
        ensures
            final(self).wf(),
            can_load(old(self)@, path.spec_id()) ==> handle == Some(
                HandleUntyped { id: HandleId::AssetPathId(path.spec_id()) },
            ) && final(self)@ == after_load(old(self)@, path@),
            !can_load(old(self)@, path.spec_id()) ==> handle is None && final(self)@ == old(self)@,
    {
        if self.can_load(&path) {
            Some(self.load_untyped(path))
        } else {
            None
        }
    }

    /// Requests the asset at `path` as `load` does, where the request can be
    /// served; where the source's version cannot be counted up any more,
    /// nothing changes and no handle is returned.
    pub fn try_load<T: Asset>(&mut self, path: AssetPath) -> (handle: Option<Handle<T>>)
        requires
            old(self).wf(),
        ensures
            final(self).wf(),
            can_load(old(self)@, path.spec_id()) ==> handle == Some(
                Handle::<T>::of(HandleId::AssetPathId(path.spec_id())),
            ) && final(self)@ == after_load(old(self)@, path@),
            !can_load(old(self)@, path.spec_id()) ==> handle is None && final(self)@ == old(self)@,
    {
        if self.can_load(&path) {
            Some(self.load(path))
        } else {
            None
        }
    }

    /// Requests the asset at `path`, as `load_untyped` does, and returns a
    /// typed handle.
    pub fn load<T: Asset>(&mut self, path: AssetPath) -> (handle: Handle<T>)
        requires
            old(self).wf(),
            can_load(old(self)@, path.spec_id()),
        ensures
            final(self).wf(),
            handle == Handle::<T>::of(HandleId::AssetPathId(path.spec_id())),
            final(self)@ == after_load(old(self)@, path@),
    {
        self.load_untyped(path).typed()
    }

    /// Where `extension` stands among the registered extensions, or their
    /// number where it does not.
    fn extension_position(&self, extension: &str) -> (index: usize)
        requires
            self.wf(),
        ensures
            index <= self.loader_extensions@.len(),
            index < self.loader_extensions@.len() ==> self.loader_extensions@[index as int]@
                == extension@ && self@.loaders.contains_key(extension@) && self@.loaders[extension@]
                == self.loader_indices@[index as int],
            index == self.loader_extensions@.len() ==> !self@.loaders.contains_key(extension@),
    {
        let wanted = extension.to_owned();
        let ghost views = extension_views(self.loader_extensions@);
        let mut index: usize = 0;
        while index < self.loader_extensions.len()
            invariant
                wanted@ == extension@,
                views == extension_views(self.loader_extensions@),
                views.no_duplicates(),
                index <= self.loader_extensions@.len(),
                forall|k: int| 0 <= k < index ==> views[k] != extension@,
            decreases self.loader_extensions@.len() - index,
        {
            if self.loader_extensions[index] == wanted {
                proof {
                    assert(views[index as int] == extension@);
                    lemma_table_at(views, self.loader_indices@, index as int);
                }
                return index;
            }
            index = index + 1;
        }
        index
    }

    /// Makes `extension` lead to the loader at `index`.
    fn set_loader(&mut self, extension: &str, index: usize)
        requires
            old(self).wf(),
            index < old(self)@.loader_list.len(),
        ensures
            final(self).wf(),
            final(self)@ == (ServerState {
                loaders: old(self)@.loaders.insert(extension@, index),
                ..old(self)@
            }),
    {
        let at = self.extension_position(extension);
        let ghost views = extension_views(self.loader_extensions@);
        if at < self.loader_extensions.len() {
            proof {
                lemma_table_update(views, self.loader_indices@, at as int, index);
            }
            self.loader_indices[at] = index;
        } else {
            proof {
                lemma_table_push(views, self.loader_indices@, extension@, index);
            }
            self.loader_extensions.push(extension.to_owned());
            self.loader_indices.push(index);
            assert(extension_views(self.loader_extensions@) == views.push(extension@));
        }
    }

    /// Makes each extension in `file_ext` lead to the loader at `index`.
    fn set_loaders(&mut self, file_ext: &[&str], index: usize)
        requires
            old(self).wf(),
            index < old(self)@.loader_list.len(),
        ensures
            final(self).wf(),
            final(self)@ == (ServerState {
                loaders: leading_to(old(self)@.loaders, extension_texts(file_ext@), index),
                ..old(self)@
            }),
    {
        let ghost extensions = extension_texts(file_ext@);
        assert(leading_to(old(self)@.loaders, extensions.take(0), index) == old(self)@.loaders);
        let mut i: usize = 0;
        while i < file_ext.len()
            invariant
                self.wf(),
                i <= file_ext@.len(),
                extensions == extension_texts(file_ext@),
                index < old(self)@.loader_list.len(),
                self@ == (ServerState {
                    loaders: leading_to(old(self)@.loaders, extensions.take(i as int), index),
                    ..old(self)@
                }),
            decreases file_ext@.len() - i,
        {
            let ghost before = self@.loaders;
            self.set_loader(file_ext[i], index);
            proof {
                let done = extensions.take(i as int);
                let more = extensions.take(i + 1);
                assert(more == done.push(extensions[i as int]));
                assert forall|extension: Seq<char>| #[trigger]
                    more.contains(extension) <==> (done.contains(extension) || extension
                        == extensions[i as int]) by {
                    if done.contains(extension) {
                        assert(more[done.index_of(extension)] == extension);
                    }
                    if extension == extensions[i as int] {
                        assert(more[i as int] == extension);
                    }
                    if more.contains(extension) && extension != extensions[i as int] {
                        assert(done[more.index_of(extension)] == extension);
                    }
                }
                assert(before.insert(extensions[i as int], index) == leading_to(
                    old(self)@.loaders,
                    more,
                    index,
                ));
            }
            i = i + 1;
        }
        assert(extensions.take(i as int) == extensions);
    }

    /// Registers `loader` for the files of each extension in `file_ext`. An
    /// extension that had a loader has this one from now on. The loader is
    /// kept as a trait object, the last in the list of loaders; those that
    /// were in the list keep their places.
    pub fn register_asset_loader<T: AssetLoader + 'static>(&mut self, file_ext: &[&str], loader: T)
        requires
            old(self).wf(),
        ensures
            final(self).wf(),
            final(self)@.loader_list.len() == old(self)@.loader_list.len() + 1,
            forall|index: int|
                0 <= index < old(self)@.loader_list.len() ==>
                    #[trigger] final(self)@.loader_list[index] == old(self)@.loader_list[index],
            final(self)@ == after_register(
                old(self)@,
                extension_texts(file_ext@),
                final(self)@.loader_list,
            ),
    {
        let boxed: Box<dyn AssetLoader> = Box::new(loader);
        let idx = self.loader_list.len();
        proof {
            let list = self.loader_list@;
            vstd::seq::axiom_seq_push_len(list, boxed);
            assert forall|index: int| 0 <= index < list.len() implies #[trigger] list.push(
                boxed,
            )[index] == list[index] by {
                vstd::seq::axiom_seq_push_index_different(list, boxed, index);
            }
        }
        self.loader_list.push(boxed);
        self.set_loaders(file_ext, idx);
    }

    /// Registers the loader `loader` for the files of each extension in
    /// `file_ext`: it is the last in the list of loaders from now on, and
    /// each of the extensions leads to it, whatever it led to before.
    pub fn register_boxed_asset_loader(&mut self, file_ext: &[&str], loader: Box<dyn AssetLoader>)
        requires
            old(self).wf(),
        ensures
            final(self).wf(),
            final(self)@ == after_register(
                old(self)@,
                extension_texts(file_ext@),
                old(self)@.loader_list.push(loader),
            ),
    {
        let idx = self.loader_list.len();
        proof {
            vstd::seq::axiom_seq_push_len(self.loader_list@, loader);
        }
        self.loader_list.push(loader);
        self.set_loaders(file_ext, idx);
    }

    /// The position, in the list of loaders, of the loader registered for
    /// `ext`.
    pub fn get_loader_by_ext(&self, ext: &str) -> (result: Result<usize, AssetServerError>)
        requires
            self.wf(),
        ensures
            (match result {
                Ok(index) => self@.loaders.contains_key(ext@) && index == self@.loaders[ext@]
                    && index < self@.loader_list.len(),
                Err(error) => !self@.loaders.contains_key(ext@) && error
                    == AssetServerError::MissingAssetLoader(None),
            }),
    {
        let at = self.extension_position(ext);
        if at < self.loader_extensions.len() {
            Ok(self.loader_indices[at])
        } else {
            Err(AssetServerError::MissingAssetLoader(None))
        }
    }

    /// The position, in the list of loaders, of the loader that serves the
    /// file at `path`.
    pub fn get_loader_by_path(&self, path: &str) -> (result: Result<usize, AssetServerError>)
        requires
            self.wf(),
        ensures
            (match result {
                Ok(index) => loader_for(self@, path@) == Some(index) && index < self@.loader_list.len(),
                Err(error) => loader_for(self@, path@) is None && error
                    == AssetServerError::MissingAssetLoader(None),
            }),
    {
        match extension_of(path) {
            Some(extension) => self.get_loader_by_ext(extension.as_str()),
            None => Err(AssetServerError::MissingAssetLoader(None)),
        }
    }

    /// The loader at `index` in the list of loaders.
    pub fn loader(&self, index: usize) -> (loader: &Box<dyn AssetLoader>)
        requires
            index < self@.loader_list.len(),
        ensures
            *loader == self@.loader_list[index as int],
    {
        &self.loader_list[index]
    }

    /// How many loaders were registered.
    pub fn loader_count(&self) -> (count: usize)
        ensures
            count == self@.loader_list.len(),
    {
        self.loader_list.len()
    }

    /// Whether the asset type `type_uuid` is registered.
    pub fn is_registered(&self, type_uuid: TypeUuid) -> (registered: bool)
        ensures
            registered == self@.queues.contains_key(type_uuid.0),
    {
        self.asset_lifecycles.contains_key(&type_uuid.0)
    }

    /// Whether the file of `source` was ever requested.
    pub fn knows_source(&self, source: SourcePathId) -> (known: bool)
        ensures
            known == self@.sources.contains_key(source.0),
    {
        self.asset_sources.contains_key(&source.0)
    }

    /// Sends one finished asset to the queue of its type.
    fn dispatch(&mut self, finished: FinishedAsset)
        requires
            old(self).wf(),
            old(self)@.queues.contains_key(finished.type_uuid.0),
            finished.result.asset.spec_type_uuid() == finished.type_uuid,
        ensures
            final(self).wf(),
            final(self)@ == (ServerState {
                queues: old(self)@.queues.insert(
                    finished.type_uuid.0,
                    old(self)@.queues[finished.type_uuid.0].push(
                        AssetLifecycleEvent::Create(finished.result),
                    ),
                ),
                ..old(self)@
            }),
    {
        let key = finished.type_uuid.0;
        let mut channel = self.asset_lifecycles.remove(&key).unwrap();
        channel.create_asset(finished.result.id, finished.result.asset, finished.result.version);
        self.asset_lifecycles.insert(key, channel);
        assert(self@.queues == old(self)@.queues.insert(
            key,
            old(self)@.queues[key].push(AssetLifecycleEvent::Create(finished.result)),
        ));
    }

    /// Takes in what a load has produced, where that can be done without an
    /// error. The load is committed where its version is still the latest
    /// of its source; it is dropped, and the server left as it was, where a
    /// later request has taken its place.
    #[verifier::loop_isolation(false)]
    pub fn commit_load(&mut self, load_context: LoadContext)
        requires
            old(self).wf(),
            can_commit(
                old(self)@,
                load_context.spec_path(),
                load_context.spec_version(),
                load_context.entries(),
            ),
        ensures
            final(self).wf(),
            final(self)@ == after_finished_load(
                old(self)@,
                load_context.spec_path(),
                load_context.spec_version(),
                load_context.entries(),
            ),
    {
        let ghost path = load_context.spec_path();
        let ghost entries = load_context.entries();
        let version = load_context.version();
        let source = SourcePathId::from(load_context.path());
        if self.source_version(source) != version {
            return ;
        }
        let mut info = self.asset_sources.remove(&source.0).unwrap();
        info.committed_assets.clear();
        self.asset_sources.insert(source.0, info);
        let mut results = load_context.into_results();
        let ghost total = entries.len();
        let ghost cleared = ServerState {
            sources: old(self)@.sources.insert(
                source.0,
                SourceState { version, committed: Set::empty() },
            ),
            ..old(self)@
        };
        assert(self@.sources == cleared.sources);
        assert(self@.queues == after_commit(old(self)@, path, version, entries.take(0)).queues) by {
            reveal(Seq::filter);
        }
        while results.len() > 0
            invariant
                self.wf(),
                total == entries.len(),
                results@.len() <= total,
                all_registered(old(self)@, entries),
                cleared == (ServerState {
                    sources: old(self)@.sources.insert(
                        source.0,
                        SourceState { version, committed: Set::empty() },
                    ),
                    ..old(self)@
                }),
                source == source_path_id(path),
                forall|k: int|
                    0 <= k < results@.len() ==> (#[trigger] results@[k]).type_uuid == entries[total
                        - 1 - k].type_uuid() && AssetLifecycleEvent::Create(results@[k].result)
                        == create_event(path, version, entries[total - 1 - k]),
                self@ == (ServerState {
                    queues: after_commit(
                        old(self)@,
                        path,
                        version,
                        entries.take(total - results@.len()),
                    ).queues,
                    ..cleared
                }),
            decreases results@.len(),
        {
            let ghost done = total - results@.len();
            let ghost before = self@.queues;
            let finished = results.pop().unwrap();
            assert(finished.type_uuid == entries[done].type_uuid());
            assert(AssetLifecycleEvent::Create(finished.result) == create_event(
                path,
                version,
                entries[done],
            ));
            assert(finished.result.asset == entries[done].value);
            assert(old(self)@.queues.contains_key(entries[done].type_uuid().0));
            self.dispatch(finished);
            proof {
                let key = finished.type_uuid.0;
                assert(entries.take(done + 1) == entries.take(done).push(entries[done]));
                assert forall|type_uuid: u128| before.contains_key(type_uuid) implies #[trigger] before.insert(
                    key,
                    before[key].push(AssetLifecycleEvent::Create(finished.result)),
                )[type_uuid] == after_commit(
                    old(self)@,
                    path,
                    version,
                    entries.take(done + 1),
                ).queues[type_uuid] by {
                    lemma_created_for_push(
                        type_uuid,
                        path,
                        version,
                        entries.take(done),
                        entries[done],
                    );
                }
                assert(self@.queues == after_commit(
                    old(self)@,
                    path,
                    version,
                    entries.take(done + 1),
                ).queues);
            }
        }
        assert(entries.take(total as int) == entries);
    }

    /// Takes in what a load has produced, as `commit_load` does, where that
    /// can be done. A load of a file that was never requested is refused
    /// with `UnknownSource`, and one whose version is the latest and that
    /// holds an asset of an unregistered type with `UnregisteredAssetType`;
    /// the server is then left as it was.
    #[verifier::loop_isolation(false)]
    pub fn try_commit_load(&mut self, load_context: LoadContext) -> (result: Result<
        (),
        AssetServerError,
    >)
        requires
            old(self).wf(),
        ensures
            final(self).wf(),
            final(self)@ == after_finished_load(
                old(self)@,
                load_context.spec_path(),
                load_context.spec_version(),
                load_context.entries(),
            ),
            finished_load_result(
                old(self)@,
                load_context.spec_path(),
                load_context.spec_version(),
                load_context.entries(),
                result,
            ),
    {
        let ghost path = load_context.spec_path();
        let ghost entries = load_context.entries();
        let version = load_context.version();
        let source = SourcePathId::from(load_context.path());
        if !self.knows_source(source) {
            return Err(AssetServerError::UnknownSource(source));
        }
        if self.source_version(source) == version {
            let type_uuids = load_context.type_uuids();
            let mut checked: usize = 0;
            while checked < type_uuids.len()
                invariant
                    checked <= type_uuids@.len(),
                    type_uuids@ == entries.map_values(|entry: LoadedEntry| entry.type_uuid()),
                    *self == *old(self),
                    is_current(self@, source, version),
                    source == source_path_id(path),
                    forall|k: int|
                        0 <= k < checked ==> self@.queues.contains_key(
                            (#[trigger] entries[k]).type_uuid().0,
                        ),
                decreases type_uuids@.len() - checked,
            {
                if !self.is_registered(type_uuids[checked]) {
                    assert(entries[checked as int].type_uuid() == type_uuids@[checked as int]);
                    return Err(AssetServerError::UnregisteredAssetType(type_uuids[checked]));
                }
                checked = checked + 1;
            }
            assert(all_registered(old(self)@, entries));
        }
        self.commit_load(load_context);
        Ok(())
    }

    /// Registers the asset type `T`: gives it an empty queue, in the place
    /// of the one it had if it was registered before, and returns an empty
    /// table for its assets.
    pub fn register_asset_type<T: Asset>(&mut self) -> (assets: Assets<T>)
        requires
            old(self).wf(),
        ensures
            final(self).wf(),
            final(self)@ == (ServerState {
                queues: old(self)@.queues.insert(type_uuid_of::<T>().0, Seq::empty()),
                ..old(self)@
            }),
            assets.wf(),
            assets@ == (AssetsState::<T> { values: Map::empty(), events: Seq::empty() }),
    {
        let id = type_uuid::<T>();
        self.asset_lifecycles.insert(id.0, AssetLifecycleChannel::new(id));
        assert(self@.queues == old(self)@.queues.insert(type_uuid_of::<T>().0, Seq::empty()));
        Assets::new()
    }

    /// Registers the asset type `T`, as `register_asset_type` does.
    pub fn register_asset<T: Asset>(&mut self) -> (assets: Assets<T>)
        requires
            old(self).wf(),
        ensures
            final(self).wf(),
            final(self)@ == (ServerState {
                queues: old(self)@.queues.insert(type_uuid_of::<T>().0, Seq::empty()),
                ..old(self)@
            }),
            assets.wf(),
            assets@ == (AssetsState::<T> { values: Map::empty(), events: Seq::empty() }),
    {
        self.register_asset_type()
    }

    /// Runs the load of version `source_version` of the file at `p`, given
    /// what reading the file gave. The loader for the file's extension is
    /// looked up first; then the read must have succeeded; then the loader
    /// fills a fresh context with the file's bytes, and what it stored is
    /// taken in as `try_commit_load` does. A failure at any step leaves the
    /// server as it was.
    pub fn async_load(
        &mut self,
        p: &AssetPath,
        source_version: usize,
        read: Result<Vec<u8>, AssetIoError>,
    ) -> (result: Result<(), AssetServerError>)
        requires
            old(self).wf(),
        ensures
            final(self).wf(),
            (match loader_for(old(self)@, p.spec_path()) {
                None => {
                    &&& final(self)@ == old(self)@
                    &&& result == Err::<(), AssetServerError>(
                        AssetServerError::MissingAssetLoader(None),
                    )
                },
                Some(_) => match read {
                    Err(error) => {
                        &&& final(self)@ == old(self)@
                        &&& result == Err::<(), AssetServerError>(AssetServerError::Io(error))
                    },
                    Ok(_) => {
                        ||| {
                            &&& final(self)@ == old(self)@
                            &&& result is Err
                            &&& result->Err_0 is AssetLoaderError
                        }
                        ||| exists|entries: Seq<LoadedEntry>| #[trigger]
                            load_outcome(
                                old(self)@,
                                p.spec_path(),
                                source_version,
                                entries,
                                final(self)@,
                                result,
                            )
                    },
                },
            }),
    {
        let index = match self.get_loader_by_path(p.path()) {
            Ok(index) => index,
            Err(error) => {
                return Err(error);
            },
        };
        let bytes = match read {
            Ok(bytes) => bytes,
            Err(error) => {
                return Err(AssetServerError::Io(error));
            },
        };
        let mut load_context = LoadContext::new(source_version, p.path());
        match self.loader_list[index].load(bytes.as_slice(), &mut load_context) {
            Ok(_) => {},
            Err(failure) => {
                return Err(AssetServerError::AssetLoaderError(failure));
            },
        }
        let ghost entries = load_context.entries();
        let result = self.try_commit_load(load_context);
        assert(load_outcome(
            old(self)@,
            p.spec_path(),
            source_version,
            entries,
            self@,
            result,
        ));
        result
    }

    /// Lets one event reach the table of its type: the value is stored or
    /// taken out, and the record of the asset's source follows.
    pub fn apply_lifecycle_event<T: Asset>(
        &mut self,
        assets: &mut Assets<T>,
        event: AssetLifecycleEvent<T>,
    )
        requires
            old(self).wf(),
            old(assets).wf(),
        ensures
            final(self).wf(),
            final(assets).wf(),
            final(self)@ == (ServerState {
                sources: after_event_sources(old(self)@.sources, event),
                ..old(self)@
            }),
            final(assets)@ == after_event_table(old(assets)@, event),
    {
        match event {
            AssetLifecycleEvent::Create(result) => {
                if let HandleId::AssetPathId(id) = result.id {
                    let key = id.get_source_id().0;
                    match self.asset_sources.remove(&key) {
                        Some(info) => {
                            let mut info = info;
                            if info.version == result.version {
                                info.committed_assets.insert(id.get_label_id().0);
                            }
                            self.asset_sources.insert(key, info);
                        },
                        None => {},
                    }
                }
                assert(self@.sources == after_event_sources(old(self)@.sources, event));
                let _ = assets.set(result.id, result.asset);
            },
            AssetLifecycleEvent::Free(handle_id) => {
                if let HandleId::AssetPathId(id) = handle_id {
                    let key = id.get_source_id().0;
                    match self.asset_sources.remove(&key) {
                        Some(info) => {
                            let mut info = info;
                            info.committed_assets.remove(&id.get_label_id().0);
                            self.asset_sources.insert(key, info);
                        },
                        None => {},
                    }
                }
                assert(self@.sources == after_event_sources(old(self)@.sources, event));
                let _ = assets.remove(handle_id);
            },
        }
    }

    /// Drains the queue of the asset type `T` into its table: every event
    /// is taken out, oldest first, its value is unboxed, and the event
    /// reaches the table as `apply_lifecycle_event` says. A value that is
    /// not a `T` ends the drain with `IncorrectHandleType`.
    pub fn update_asset_storage<T: Asset>(&mut self, assets: &mut Assets<T>) -> (result: Result<
        (),
        AssetServerError,
    >)
        requires
            old(self).wf(),
            old(assets).wf(),
            old(self)@.queues.contains_key(type_uuid_of::<T>().0),
        ensures
            final(self).wf(),
            final(assets).wf(),
            exists|typed: Seq<AssetLifecycleEvent<T>>| #[trigger]
                drain_outcome(
                    old(self)@,
                    old(assets)@,
                    typed,
                    final(self)@,
                    final(assets)@,
                    result,
                ),
    {
        let key = type_uuid::<T>().0;
        let ghost queue = self@.queues[key];
        let mut channel = self.asset_lifecycles.remove(&key).unwrap();
        let ghost typed: Seq<AssetLifecycleEvent<T>> = Seq::empty();
        let mut result: Result<(), AssetServerError> = Ok(());
        let ghost without = self@;
        assert(without.queues == old(self)@.queues.remove(key));
        assert(channel.waiting() == queue.skip(0));
        loop
            invariant_except_break
                result is Ok,
                channel.waiting() == queue.skip(typed.len() as int),
            invariant
                channel.asset_type() == TypeUuid(key),
                queue_is_of(queue, TypeUuid(key)),
                self.wf(),
                assets.wf(),
                typed.len() <= queue.len(),
                forall|i: int| 0 <= i < typed.len() ==> unboxed_event(#[trigger] typed[i], queue[i]),
                assets@ == after_events_table(old(assets)@, typed),
                self@ == (ServerState {
                    sources: after_events_sources(old(self)@.sources, typed),
                    ..without
                }),
            ensures
                channel.asset_type() == TypeUuid(key),
                queue_is_of(queue, TypeUuid(key)),
                self.wf(),
                assets.wf(),
                typed.len() <= queue.len(),
                forall|i: int| 0 <= i < typed.len() ==> unboxed_event(#[trigger] typed[i], queue[i]),
                assets@ == after_events_table(old(assets)@, typed),
                self@ == (ServerState {
                    sources: after_events_sources(old(self)@.sources, typed),
                    ..without
                }),
                (match result {
                    Ok(_) => typed.len() == queue.len() && channel.waiting() == Seq::<
                        AssetLifecycleEvent<BoxedAsset>,
                    >::empty(),
                    Err(error) => typed.len() < queue.len() && refused_event::<T>(
                        queue[typed.len() as int],
                    ) && error == AssetServerError::IncorrectHandleType && channel.waiting()
                        == queue.skip(typed.len() as int + 1),
                }),
            decreases queue.len() - typed.len(),
        {
            let ghost waiting = channel.waiting();
            let received = channel.try_recv();
            let event = match received {
                Some(event) => event,
                None => {
                    assert(waiting.len() == 0);
                    break ;
                },
            };
            assert(event == queue[typed.len() as int]);
            assert(channel.waiting() == queue.skip(typed.len() as int + 1));
            let typed_event = match event {
                AssetLifecycleEvent::Create(boxed) => match boxed.asset.unbox::<T>() {
                    Ok(asset) => AssetLifecycleEvent::Create(
                        AssetLoadResult { asset, id: boxed.id, version: boxed.version },
                    ),
                    Err(back) => {
                        assert(boxed.asset.unboxes_to(Err::<T, BoxedAsset>(back)));
                        result = Err(AssetServerError::IncorrectHandleType);
                        break ;
                    },
                },
                AssetLifecycleEvent::Free(handle_id) => AssetLifecycleEvent::Free(handle_id),
            };
            self.apply_lifecycle_event(assets, typed_event);
            proof {
                let more = typed.push(typed_event);
                assert(more.drop_last() == typed);
                typed = more;
            }
        }
        self.asset_lifecycles.insert(key, channel);
        proof {
            assert(self@.queues == without.queues.insert(key, channel.waiting()));
            assert(without.queues.insert(key, channel.waiting()) == old(self)@.queues.insert(
                key,
                channel.waiting(),
            ));
            assert(drain_outcome(old(self)@, old(assets)@, typed, self@, assets@, result));
        }
        result
    }

    /// Hands out the loads that were issued since the last call, oldest
    /// first. Each is to be run once.
    pub fn take_requests(&mut self) -> (requests: Vec<LoadRequest>)
        requires
            old(self).wf(),
        ensures
            final(self).wf(),
            requests@.map_values(|request: LoadRequest| request@) == old(self)@.pending,
            final(self)@ == (ServerState { pending: Seq::empty(), ..old(self)@ }),
    {
        let mut requests: Vec<LoadRequest> = Vec::new();
        requests.append(&mut self.pending);
        assert(requests@ == old(self).pending@);
        assert(self@.pending == Seq::<PendingLoad>::empty());
        requests
    }
}

} // verus!
