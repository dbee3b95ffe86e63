//! What a loader produces, and the channel that carries finished assets to
//! the table that stores them.

use crate::asset::type_uuid;
use crate::asset::type_uuid_of;
use crate::asset::Asset;
use crate::asset::AssetDynamic;
use crate::asset::AssetPath;
use crate::asset::TextAsset;
use crate::asset_server::AssetServerError;
use crate::asset::asset_path_id;
use crate::handle::Handle;
use crate::handle::HandleId;
use crate::handle::TypeUuid;
use crossbeam_channel::Receiver;
use crossbeam_channel::Sender;
use std::any::Any;
use vstd::prelude::*;

verus! {

/// The text of each path in `paths`.
pub open spec fn path_views(paths: Seq<AssetPath>) -> Seq<(Seq<char>, Option<Seq<char>>)> {
    paths.map_values(|path: AssetPath| path@)
}

/// An asset as a loader hands it over: the value and the paths of the assets
/// it depends on.
pub struct LoadedAsset<T: Asset> {
    value: T,
    dependencies: Vec<AssetPath>,
}

impl<T: Asset> LoadedAsset<T> {
    /// The value that was loaded.
    pub closed spec fn spec_value(&self) -> T {
        self.value
    }

    /// The paths that the asset depends on, in the order they were declared.
    pub closed spec fn spec_dependencies(&self) -> Seq<(Seq<char>, Option<Seq<char>>)> {
        path_views(self.dependencies@)
    }

    /// A loaded asset without dependencies.
    pub fn new(value: T) -> (asset: Self)
        ensures
            asset.spec_value() == value,
            asset.spec_dependencies() == Seq::<(Seq<char>, Option<Seq<char>>)>::empty(),
    {
        Self { value, dependencies: Vec::new() }
    }

    /// The same asset with one more dependency.
    pub fn with_dependency(self, asset_path: AssetPath) -> (asset: Self)
        ensures
            asset.spec_value() == self.spec_value(),
            asset.spec_dependencies() == self.spec_dependencies().push(asset_path@),
    {
        let mut asset = self;
        let owned = asset_path.to_owned();
        asset.dependencies.push(owned);
        assert(path_views(asset.dependencies@) == path_views(self.dependencies@).push(
            asset_path@,
        ));
        asset
    }

    /// The same asset with the given dependencies added behind its own.
    pub fn with_dependencies(self, asset_path: Vec<AssetPath>) -> (asset: Self)
        ensures
            asset.spec_value() == self.spec_value(),
            asset.spec_dependencies() == self.spec_dependencies() + path_views(asset_path@),
    {
        let mut asset = self;
        let mut more = asset_path;
        asset.dependencies.append(&mut more);
        assert(path_views(asset.dependencies@) == path_views(self.dependencies@) + path_views(
            asset_path@,
        ));
        asset
    }
}

/// A value of some type in a `Box<dyn Any + Send + Sync>`. Nothing of the
/// value can be read while it is in there.
#[verifier::external_body]
pub struct ErasedValue {
    value: Box<dyn Any + Send + Sync>,
}

/// Moves `value` into a `Box` and forgets its type (`Box::new`, then the
/// coercion to `Box<dyn Any + Send + Sync>`). Nothing is stated of the box.
#[verifier::external_body]
pub(crate) fn erase_asset<T: AssetDynamic>(value: T) -> (erased: ErasedValue) {
    ErasedValue { value: Box::new(value) }
}

/// `Box<dyn Any + Send + Sync>::downcast::<T>`: the value, where the box
/// holds a `T`; the box as it was, where it holds something else.
#[verifier::external_body]
pub(crate) fn recover_asset<T: AssetDynamic>(erased: ErasedValue) -> (result: Result<T, ErasedValue>)
    ensures
        result is Err ==> result->Err_0 == erased,
{
    match erased.value.downcast::<T>() {
        Ok(value) => Ok(*value),
        Err(value) => Err(ErasedValue { value }),
    }
}

/// The text of the `TextAsset` that the box holds; nothing where the box
/// holds a value of another type.
pub uninterp spec fn erased_text(erased: ErasedValue) -> Option<Seq<char>>;

/// `Box::new` of a `TextAsset`, then the coercion to
/// `Box<dyn Any + Send + Sync>`: the box holds the asset, and so its text.
#[verifier::external_body]
pub(crate) fn erase_text(asset: TextAsset) -> (erased: ErasedValue)
    ensures
        erased_text(erased) == Some(asset.0@),
{
    ErasedValue { value: Box::new(asset) }
}

/// `Box<dyn Any + Send + Sync>::downcast::<TextAsset>`: the asset with its
/// text, where the box holds a `TextAsset`; the box as it was, where it
/// holds something else.
#[verifier::external_body]
pub(crate) fn recover_text(erased: ErasedValue) -> (result: Result<TextAsset, ErasedValue>)
    ensures
        match result {
            Ok(asset) => erased_text(erased) == Some(asset.0@),
            Err(back) => erased_text(erased) is None && back == erased,
        },
{
    match erased.value.downcast::<TextAsset>() {
        Ok(asset) => Ok(*asset),
        Err(value) => Err(ErasedValue { value }),
    }
}

/// A value of some asset type, kept without its type, beside the
/// identifier of the type it had. A loaded asset is boxed when it is stored
/// in a load context, and unboxed when its event is drained into the table
/// of its type.
pub struct BoxedAsset {
    type_uuid: TypeUuid,
    value: ErasedValue,
}

impl BoxedAsset {
    /// The identifier of the type that the value had before it was boxed.
    pub closed spec fn spec_type_uuid(&self) -> TypeUuid {
        self.type_uuid
    }

    /// The value without its type.
    pub closed spec fn spec_value(&self) -> ErasedValue {
        self.value
    }

    /// The text in the box, where it holds a `TextAsset`.
    pub open spec fn spec_text(&self) -> Option<Seq<char>> {
        erased_text(self.spec_value())
    }

    /// Whether this is a box of `value`: it carries the identifier of `T`,
    /// and is what `T` makes of `value` when it gives up its type.
    pub open spec fn holds<T: Asset>(&self, value: T) -> bool {
        &&& self.spec_type_uuid() == type_uuid_of::<T>()
        &&& call_ensures(T::erase, (value,), self.spec_value())
    }

    /// Whether `result` is what unboxing as a `T` gives: the value that `T`
    /// recovers, or the box again where `T` recovers none.
    pub open spec fn unboxes_to<T: Asset>(&self, result: Result<T, BoxedAsset>) -> bool {
        match result {
            Ok(value) => call_ensures(
                T::recover,
                (self.spec_value(),),
                Ok::<T, ErasedValue>(value),
            ),
            Err(back) => {
                &&& back.spec_type_uuid() == self.spec_type_uuid()
                &&& call_ensures(
                    T::recover,
                    (self.spec_value(),),
                    Err::<T, ErasedValue>(back.spec_value()),
                )
            },
        }
    }

    /// Whether unboxing as a `T` can fail.
    pub open spec fn may_fail_as<T: Asset>(&self) -> bool {
        exists|back: BoxedAsset| #[trigger] self.unboxes_to(Err::<T, BoxedAsset>(back))
    }

    /// Boxes `value` and keeps the identifier of its type beside it.
    pub fn new<T: Asset>(value: T) -> (boxed: Self)
        ensures
            boxed.holds(value),
    {
        BoxedAsset { type_uuid: type_uuid::<T>(), value: value.erase() }
    }

    /// The identifier of the type that the value had before it was boxed.
    pub fn type_uuid(&self) -> (id: TypeUuid)
        ensures
            id == self.spec_type_uuid(),
    {
        self.type_uuid
    }

    /// Takes the value out as a `T`, or gives the box back.
    pub fn unbox<T: Asset>(self) -> (result: Result<T, BoxedAsset>)
        ensures
            self.unboxes_to(result),
    {
        match T::recover(self.value) {
            Ok(value) => Ok(value),
            Err(value) => Err(BoxedAsset { type_uuid: self.type_uuid, value }),
        }
    }
}

/// A loaded asset whose value is boxed.
pub struct BoxedLoadedAsset {
    value: BoxedAsset,
    dependencies: Vec<AssetPath>,
}

impl BoxedLoadedAsset {
    /// The boxed value.
    pub closed spec fn spec_value(&self) -> BoxedAsset {
        self.value
    }

    /// The paths that the asset depends on.
    pub closed spec fn spec_dependencies(&self) -> Seq<(Seq<char>, Option<Seq<char>>)> {
        path_views(self.dependencies@)
    }
}

impl<T: Asset> From<LoadedAsset<T>> for BoxedLoadedAsset {
    /// Boxes the value and keeps the dependencies.
    fn from(asset: LoadedAsset<T>) -> (boxed: BoxedLoadedAsset)
        ensures
            boxed.spec_value().holds(asset.spec_value()),
            boxed.spec_dependencies() == asset.spec_dependencies(),
    {
        BoxedLoadedAsset { value: BoxedAsset::new(asset.value), dependencies: asset.dependencies }
    }
}

/// What `from` makes of a loaded asset is stated of the parts of its result,
/// not of the result itself: the box is not a function of the value.
impl<T: Asset> vstd::std_specs::convert::FromSpecImpl<LoadedAsset<T>> for BoxedLoadedAsset {
    open spec fn obeys_from_spec() -> bool {
        false
    }

    open spec fn from_spec(asset: LoadedAsset<T>) -> BoxedLoadedAsset {
        arbitrary()
    }
}

/// A finished asset on its way to the table: the value, the handle it goes
/// under, and the version of the load that produced it.
pub struct AssetLoadResult<T> {
    pub asset: T,
    pub id: HandleId,
    pub version: usize,
}

/// What the table is told of an asset.
pub enum AssetLifecycleEvent<T> {
    /// The asset was loaded and is to be stored.
    Create(AssetLoadResult<T>),
    /// The asset is to be dropped.
    Free(HandleId),
}

/// `crossbeam_channel::Sender`, the sending end of a channel. It is carried
/// as it is; nothing inside it is read.
#[verifier::external_type_specification]
#[verifier::external_body]
#[verifier::reject_recursive_types(T)]
pub struct ExSender<T>(Sender<T>);

/// `crossbeam_channel::Receiver`, the receiving end of a channel. It is
/// carried as it is; nothing inside it is read.
#[verifier::external_type_specification]
#[verifier::external_body]
#[verifier::reject_recursive_types(T)]
pub struct ExReceiver<T>(Receiver<T>);

/// The two ends of one unbounded channel. They are kept together and handed
/// out to nobody, so what is sent stays queued, in the order it was sent,
/// until it is received here.
pub struct ChannelEnds {
    sender: Sender<AssetLifecycleEvent<BoxedAsset>>,
    receiver: Receiver<AssetLifecycleEvent<BoxedAsset>>,
}

/// The events that were sent into the channel and not received yet, oldest
/// first.
pub uninterp spec fn channel_queue(ends: ChannelEnds) -> Seq<AssetLifecycleEvent<BoxedAsset>>;

/// `crossbeam_channel::unbounded`: a new channel, which holds no message.
#[verifier::external_body]
fn unbounded_channel() -> (ends: ChannelEnds)
    ensures
        channel_queue(ends) == Seq::<AssetLifecycleEvent<BoxedAsset>>::empty(),
{
    let (sender, receiver) = crossbeam_channel::unbounded();
    ChannelEnds { sender, receiver }
}

/// `Sender::send` on the channel's own sender: the message is queued behind
/// those that wait. An unbounded channel never blocks a sender, and `send`
/// fails only when every receiver is gone, which cannot be while `ends`
/// holds one.
#[verifier::external_body]
fn channel_send(ends: &mut ChannelEnds, event: AssetLifecycleEvent<BoxedAsset>)
    ensures
        channel_queue(*final(ends)) == channel_queue(*old(ends)).push(event),
{
    let _ = ends.sender.send(event);
}

/// `Receiver::try_recv` on the channel's own receiver: the oldest message
/// that waits, which leaves the queue, or `None` where none waits. The
/// channel cannot be disconnected while `ends` holds a sender.
#[verifier::external_body]
fn channel_try_recv(ends: &mut ChannelEnds) -> (event: Option<AssetLifecycleEvent<BoxedAsset>>)
    ensures
        channel_queue(*old(ends)).len() == 0 ==> event is None && channel_queue(*final(ends))
            == channel_queue(*old(ends)),
        channel_queue(*old(ends)).len() > 0 ==> event == Some(channel_queue(*old(ends))[0])
            && channel_queue(*final(ends)) == channel_queue(*old(ends)).drop_first(),
{
    match ends.receiver.try_recv() {
        Ok(event) => Some(event),
        Err(_) => None,
    }
}

/// Whether every asset that `queue` creates is of the type `type_uuid`.
pub open spec fn queue_is_of(
    queue: Seq<AssetLifecycleEvent<BoxedAsset>>,
    type_uuid: TypeUuid,
) -> bool {
    forall|i: int|
        0 <= i < queue.len() && (#[trigger] queue[i]) is Create
            ==> queue[i]->Create_0.asset.spec_type_uuid() == type_uuid
}

/// The queue of events for the assets of one type, beside the identifier of
/// that type.
pub struct AssetLifecycleChannel {
    type_uuid: TypeUuid,
    ends: ChannelEnds,
}

/// What a queue of lifecycle events takes in.
pub trait AssetLifecycle {
    /// The identifier of the asset type that the queue is for.
    spec fn asset_type(&self) -> TypeUuid;

    /// The events that wait in the queue, oldest first.
    spec fn waiting(&self) -> Seq<AssetLifecycleEvent<BoxedAsset>>;

    /// Queues the creation of an asset. The asset is of the queue's type.
    fn create_asset(&mut self, id: HandleId, asset: BoxedAsset, version: usize)
        requires
            asset.spec_type_uuid() == old(self).asset_type(),
        ensures
            final(self).asset_type() == old(self).asset_type(),
            final(self).waiting() == old(self).waiting().push(
                AssetLifecycleEvent::Create(AssetLoadResult { asset, id, version }),
            ),
    ;

    /// Queues the removal of an asset.
    fn free_asset(&mut self, id: HandleId)
        ensures
            final(self).asset_type() == old(self).asset_type(),
            final(self).waiting() == old(self).waiting().push(AssetLifecycleEvent::Free(id)),
    ;
}

impl AssetLifecycle for AssetLifecycleChannel {
    closed spec fn asset_type(&self) -> TypeUuid {
        self.type_uuid
    }

    closed spec fn waiting(&self) -> Seq<AssetLifecycleEvent<BoxedAsset>> {
        channel_queue(self.ends)
    }

    fn create_asset(&mut self, id: HandleId, asset: BoxedAsset, version: usize) {
        channel_send(
            &mut self.ends,
            AssetLifecycleEvent::Create(AssetLoadResult { asset, id, version }),
        );
    }

    fn free_asset(&mut self, id: HandleId) {
        channel_send(&mut self.ends, AssetLifecycleEvent::Free(id));
    }
}

impl AssetLifecycleChannel {
    /// An empty queue for the assets of the type `type_uuid`.
    pub fn new(type_uuid: TypeUuid) -> (channel: Self)
        ensures
            channel.asset_type() == type_uuid,
            channel.waiting() == Seq::<AssetLifecycleEvent<BoxedAsset>>::empty(),
    {
        AssetLifecycleChannel { type_uuid, ends: unbounded_channel() }
    }

    /// The identifier of the asset type that the queue is for.
    pub fn type_uuid(&self) -> (id: TypeUuid)
        ensures
            id == self.asset_type(),
    {
        self.type_uuid
    }

    /// Queues the creation of an asset where the asset is of the queue's
    /// type; refuses it with `IncorrectHandleType`, and drops it, where it
    /// is of another.
    pub fn try_create_asset(&mut self, id: HandleId, asset: BoxedAsset, version: usize) -> (result:
        Result<(), AssetServerError>)
        ensures
            final(self).asset_type() == old(self).asset_type(),
            (if asset.spec_type_uuid() == old(self).asset_type() {
                &&& result is Ok
                &&& final(self).waiting() == old(self).waiting().push(
                    AssetLifecycleEvent::Create(AssetLoadResult { asset, id, version }),
                )
            } else {
                &&& result == Err::<(), AssetServerError>(AssetServerError::IncorrectHandleType)
                &&& final(self).waiting() == old(self).waiting()
            }),
    {
        if asset.type_uuid() == self.type_uuid {
            self.create_asset(id, asset, version);
            Ok(())
        } else {
            Err(AssetServerError::IncorrectHandleType)
        }
    }

    /// Takes the oldest event out of the queue; `None` where the queue is
    /// empty.
    pub fn try_recv(&mut self) -> (event: Option<AssetLifecycleEvent<BoxedAsset>>)
        ensures
            final(self).asset_type() == old(self).asset_type(),
            (if old(self).waiting().len() == 0 {
                &&& event is None
                &&& final(self).waiting() == old(self).waiting()
            } else {
                &&& event == Some(old(self).waiting()[0])
                &&& final(self).waiting() == old(self).waiting().drop_first()
            }),
    {
        channel_try_recv(&mut self.ends)
    }
}

/// One asset of a load as contracts see it: the label it was stored under,
/// the boxed value and its dependencies.
pub struct LoadedEntry {
    pub label: Option<Seq<char>>,
    pub value: BoxedAsset,
    pub dependencies: Seq<(Seq<char>, Option<Seq<char>>)>,
}

impl LoadedEntry {
    /// The identifier of the asset's type.
    pub open spec fn type_uuid(self) -> TypeUuid {
        self.value.spec_type_uuid()
    }
}

/// The labels of `entries`, in order.
pub open spec fn entry_labels(entries: Seq<LoadedEntry>) -> Seq<Option<Seq<char>>> {
    entries.map_values(|entry: LoadedEntry| entry.label)
}

/// `entries` with `entry` in the place of the first entry that has its
/// label, or behind all of them where none has it.
pub open spec fn with_entry(entries: Seq<LoadedEntry>, entry: LoadedEntry) -> Seq<LoadedEntry> {
    match entry_labels(entries).index_of_first(entry.label) {
        Some(index) => entries.update(index, entry),
        None => entries.push(entry),
    }
}

/// Storing an entry keeps labels distinct, and the stored entry is then the
/// only one of its label.
pub proof fn lemma_with_entry_keeps_labels_distinct(entries: Seq<LoadedEntry>, entry: LoadedEntry)
    requires
        entry_labels(entries).no_duplicates(),
    ensures
        entry_labels(with_entry(entries, entry)).no_duplicates(),
        with_entry(entries, entry).contains(entry),
{
    let labels = entry_labels(entries);
    labels.index_of_first_ensures(entry.label);
    let stored = with_entry(entries, entry);
    match labels.index_of_first(entry.label) {
        Some(index) => {
            assert(entry_labels(stored) == labels);
            assert(stored[index] == entry);
        },
        None => {
            assert(entry_labels(stored) == labels.push(entry.label));
            assert(stored[entries.len() as int] == entry);
        },
    }
}

/// A boxed asset under its label.
struct LabeledAsset {
    label: Option<String>,
    asset: BoxedLoadedAsset,
}

impl LabeledAsset {
    /// The asset as contracts see it.
    spec fn entry(&self) -> LoadedEntry {
        LoadedEntry {
            label: match self.label {
                Some(text) => Some(text@),
                None => None,
            },
            value: self.asset.value,
            dependencies: path_views(self.asset.dependencies@),
        }
    }
}

/// What one load has produced so far: the assets, each under its label, for
/// the file at `path`, requested as version `version` of that file.
pub struct LoadContext {
    label_assets: Vec<LabeledAsset>,
    version: usize,
    path: String,
}

/// Whether the stored label holds the text of the given one.
fn same_label(stored: &Option<String>, label: Option<&str>) -> (same: bool)
    ensures
        same == (match *stored {
            Some(text) => Some(text@),
            None => None,
        } == crate::asset::label_text(label)),
{
    match (stored, label) {
        (Some(text), Some(other)) => {
            let owned = other.to_owned();
            *text == owned
        },
        (None, None) => true,
        _ => false,
    }
}

impl LoadContext {
    /// The version of the file that this load was requested as.
    pub closed spec fn spec_version(&self) -> usize {
        self.version
    }

    /// The path of the file that is loaded.
    pub closed spec fn spec_path(&self) -> Seq<char> {
        self.path@
    }

    /// The assets produced so far, in the order their labels were first
    /// stored.
    pub closed spec fn entries(&self) -> Seq<LoadedEntry> {
        self.label_assets@.map_values(|labeled: LabeledAsset| labeled.entry())
    }

    /// Whether an asset is stored under `label`.
    pub open spec fn has_label(&self, label: Option<Seq<char>>) -> bool {
        entry_labels(self.entries()).contains(label)
    }

    /// The handle of the asset that this load stores under `label`.
    pub open spec fn handle_id(&self, label: Option<Seq<char>>) -> HandleId {
        HandleId::AssetPathId(asset_path_id(self.spec_path(), label))
    }

    /// A context without assets.
    pub fn new(version: usize, path: &str) -> (context: Self)
        ensures
            context.spec_version() == version,
            context.spec_path() == path@,
            context.entries() == Seq::<LoadedEntry>::empty(),
    {
        Self { label_assets: Vec::new(), version, path: path.to_owned() }
    }

    /// The path of the file that is loaded.
    pub fn path(&self) -> (path: &str)
        ensures
            path@ == self.spec_path(),
    {
        self.path.as_str()
    }

    /// The version of the file that this load was requested as.
    pub fn version(&self) -> (version: usize)
        ensures
            version == self.spec_version(),
    {
        self.version
    }

    /// The position of the first asset stored under `label`, or the number
    /// of assets where none is.
    fn position(&self, label: Option<&str>) -> (index: usize)
        ensures
            index <= self.entries().len(),
            (match entry_labels(self.entries()).index_of_first(crate::asset::label_text(label)) {
                Some(first) => index == first,
                None => index == self.entries().len(),
            }),
    {
        let ghost labels = entry_labels(self.entries());
        let ghost wanted = crate::asset::label_text(label);
        let mut index: usize = 0;
        while index < self.label_assets.len()
            invariant
                index <= self.label_assets.len(),
                labels == entry_labels(self.entries()),
                wanted == crate::asset::label_text(label),
                labels.len() == self.label_assets.len(),
                forall|k: int| 0 <= k < index ==> labels[k] != wanted,
            decreases self.label_assets.len() - index,
        {
            if same_label(&self.label_assets[index].label, label) {
                proof {
                    assert(labels[index as int] == wanted);
                    labels.index_of_first_ensures(wanted);
                }
                return index;
            }
            index = index + 1;
        }
        proof {
            labels.index_of_first_ensures(wanted);
        }
        index
    }

    /// Whether an asset is stored under the label `label`.
    pub fn has_labeled_asset(&self, label: &str) -> (has: bool)
        ensures
            has == self.has_label(Some(label@)),
    {
        let index = self.position(Some(label));
        proof {
            entry_labels(self.entries()).index_of_first_ensures(Some(label@));
        }
        index < self.label_assets.len()
    }

    /// Stores a boxed asset under `label`: in the place of the asset that had
    /// the label, or behind all others.
    pub(crate) fn insert(&mut self, label: Option<&str>, asset: BoxedLoadedAsset)
        ensures
            final(self).spec_version() == old(self).spec_version(),
            final(self).spec_path() == old(self).spec_path(),
            final(self).entries() == with_entry(
                old(self).entries(),
                LoadedEntry {
                    label: crate::asset::label_text(label),
                    value: asset.spec_value(),
                    dependencies: asset.spec_dependencies(),
                },
            ),
    {
        let index = self.position(label);
        let labeled = LabeledAsset {
            label: match label {
                Some(text) => Some(text.to_owned()),
                None => None,
            },
            asset,
        };
        let ghost entry = labeled.entry();
        assert(entry == LoadedEntry {
            label: crate::asset::label_text(label),
            value: asset.spec_value(),
            dependencies: asset.spec_dependencies(),
        });
        let ghost first = entry_labels(old(self).entries()).index_of_first(entry.label);
        proof {
            entry_labels(old(self).entries()).index_of_first_ensures(entry.label);
        }
        if index < self.label_assets.len() {
            assert(first == Some(index as int));
            self.label_assets[index] = labeled;
            assert(self.label_assets@ == old(self).label_assets@.update(index as int, labeled));
            assert(self.entries() == old(self).entries().update(index as int, entry));
        } else {
            assert(first is None);
            self.label_assets.push(labeled);
            assert(self.label_assets@ == old(self).label_assets@.push(labeled));
            assert(self.entries() == old(self).entries().push(entry));
        }
        assert(self.entries() == with_entry(old(self).entries(), entry));
    }

    /// Stores `asset` as the file's unlabelled asset and returns its handle.
    /// The entry holds the asset's dependencies and a box of its value.
    pub fn set_default_asset<T: Asset>(&mut self, asset: LoadedAsset<T>) -> (handle: Handle<T>)
        ensures
            handle == Handle::<T>::of(old(self).handle_id(None)),
            final(self).spec_version() == old(self).spec_version(),
            final(self).spec_path() == old(self).spec_path(),
            exists|boxed: BoxedAsset| #[trigger]
                boxed.holds(asset.spec_value()) && final(self).entries() == with_entry(
                    old(self).entries(),
                    LoadedEntry {
                        label: None,
                        value: boxed,
                        dependencies: asset.spec_dependencies(),
                    },
                ),
    {
        let boxed = BoxedLoadedAsset::from(asset);
        let ghost value = boxed.spec_value();
        self.insert(None, boxed);
        assert(value.holds(asset.spec_value()));
        Handle::new(HandleId::from(AssetPath::new_ref(self.path(), None)))
    }

    /// Stores `asset` under `label` and returns its handle. The entry holds
    /// the asset's dependencies and a box of its value.
    pub fn set_labeled_asset<T: Asset>(&mut self, label: &str, asset: LoadedAsset<T>) -> (handle:
        Handle<T>)
        ensures
            handle == Handle::<T>::of(old(self).handle_id(Some(label@))),
            final(self).spec_version() == old(self).spec_version(),
            final(self).spec_path() == old(self).spec_path(),
            exists|boxed: BoxedAsset| #[trigger]
                boxed.holds(asset.spec_value()) && final(self).entries() == with_entry(
                    old(self).entries(),
                    LoadedEntry {
                        label: Some(label@),
                        value: boxed,
                        dependencies: asset.spec_dependencies(),
                    },
                ),
    {
        let boxed = BoxedLoadedAsset::from(asset);
        let ghost value = boxed.spec_value();
        self.insert(Some(label), boxed);
        assert(value.holds(asset.spec_value()));
        Handle::new(HandleId::from(AssetPath::new_ref(self.path(), Some(label))))
    }
}

/// The event that tells the table of the asset `entry`, which was loaded
/// from the file at `path` as version `version`.
pub open spec fn create_event(path: Seq<char>, version: usize, entry: LoadedEntry) -> AssetLifecycleEvent<
    BoxedAsset,
> {
    AssetLifecycleEvent::Create(
        AssetLoadResult {
            asset: entry.value,
            id: HandleId::AssetPathId(asset_path_id(path, entry.label)),
            version,
        },
    )
}

/// A finished asset beside the identifier of its type, which says into
/// which queue it goes.
pub struct FinishedAsset {
    pub type_uuid: TypeUuid,
    pub result: AssetLoadResult<BoxedAsset>,
}

impl LoadContext {
    /// The identifier of the type of each asset, in order.
    pub fn type_uuids(&self) -> (type_uuids: Vec<TypeUuid>)
        ensures
            type_uuids@ == self.entries().map_values(|entry: LoadedEntry| entry.type_uuid()),
    {
        let mut type_uuids: Vec<TypeUuid> = Vec::new();
        let mut index: usize = 0;
        while index < self.label_assets.len()
            invariant
                index <= self.label_assets@.len(),
                type_uuids@ == self.entries().take(index as int).map_values(
                    |entry: LoadedEntry| entry.type_uuid(),
                ),
            decreases self.label_assets@.len() - index,
        {
            type_uuids.push(self.label_assets[index].asset.value.type_uuid());
            assert(self.entries().take(index + 1) == self.entries().take(index as int).push(
                self.entries()[index as int],
            ));
            index = index + 1;
        }
        assert(self.entries().take(index as int) == self.entries());
        type_uuids
    }

    /// Takes the context apart into its finished assets, each with the
    /// handle that its label gives it and the context's version. They come
    /// stacked: the first asset is the last of the vector, so that `pop`
    /// hands them out in order.
    pub fn into_results(self) -> (results: Vec<FinishedAsset>)
        ensures
            results@.len() == self.entries().len(),
            forall|k: int|
                0 <= k < results@.len() ==> (#[trigger] results@[k]).type_uuid
                    == self.entries()[results@.len() - 1 - k].type_uuid()
                    && AssetLifecycleEvent::Create(results@[k].result) == create_event(
                    self.spec_path(),
                    self.spec_version(),
                    self.entries()[results@.len() - 1 - k],
                ),
    {
        let ghost entries = self.entries();
        let version = self.version;
        let path = self.path;
        let mut rest = self.label_assets;
        let mut results: Vec<FinishedAsset> = Vec::new();
        while rest.len() > 0
            invariant
                rest@.len() + results@.len() == entries.len(),
                rest@.map_values(|labeled: LabeledAsset| labeled.entry()) == entries.take(
                    rest@.len() as int,
                ),
                forall|k: int|
                    0 <= k < results@.len() ==> (#[trigger] results@[k]).type_uuid
                        == entries[entries.len() - 1 - k].type_uuid() && AssetLifecycleEvent::Create(
                        results@[k].result,
                    ) == create_event(path@, version, entries[entries.len() - 1 - k]),
            decreases rest@.len(),
        {
            let ghost before = rest@;
            let labeled = rest.pop().unwrap();
            proof {
                let at = rest@.len() as int;
                assert(before.map_values(|labeled: LabeledAsset| labeled.entry())[at]
                    == labeled.entry());
                assert(labeled.entry() == entries[at]);
                assert(rest@.map_values(|labeled: LabeledAsset| labeled.entry()) == entries.take(at));
            }
            let id = match &labeled.label {
                Some(text) => HandleId::from(AssetPath::new_ref(path.as_str(), Some(text.as_str()))),
                None => HandleId::from(AssetPath::new_ref(path.as_str(), None)),
            };
            results.push(
                FinishedAsset {
                    type_uuid: labeled.asset.value.type_uuid(),
                    result: AssetLoadResult { asset: labeled.asset.value, id, version },
                },
            );
        }
        results
    }
}

} // verus!
