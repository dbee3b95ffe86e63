//! Paths of assets and the identities derived from them.

use crate::handle::TypeUuid;
use crate::loader::erase_asset;
use crate::loader::erase_text;
use crate::loader::recover_asset;
use crate::loader::recover_text;
use crate::loader::with_entry;
use crate::loader::BoxedAsset;
use crate::loader::ErasedValue;
use crate::loader::LoadContext;
use crate::loader::LoadedAsset;
use crate::loader::LoadedEntry;
use ahash::AHasher;
use std::hash::Hash;
use std::hash::Hasher;
use std::path::Path;
use vstd::prelude::*;
use vstd::std_specs::convert::FromSpecImpl;
use vstd::string::StrSliceExecFns;
use vstd::utf8::decode_utf8;
use vstd::utf8::valid_utf8;

verus! {

/// The character that parts a path from its label in a written asset path.
pub const LABEL_SEPARATOR: char = '#';

/// First key of the hasher that identities are computed with.
pub const IDENTITY_KEY_1: u128 = 42;

/// Second key of the hasher that identities are computed with.
pub const IDENTITY_KEY_2: u128 = 23;

/// The digest that an `ahash::AHasher` made from the keys `key1` and `key2`
/// holds once `path`, read as a file-system path, has been hashed into it.
/// The hasher picks its algorithm when the library is built, by the
/// processor it is built for; in one build the digest is the same in every
/// run.
pub uninterp spec fn keyed_path_digest(key1: u128, key2: u128, path: Seq<char>) -> u64;

/// The digest that an `ahash::AHasher` made from the keys `key1` and `key2`
/// holds once the optional string `label` has been hashed into it. As for
/// paths, the digest is fixed for one build of the library.
pub uninterp spec fn keyed_label_digest(key1: u128, key2: u128, label: Option<Seq<char>>) -> u64;

/// Hashes `path` as a `std::path::Path` into `ahash::AHasher::new_with_keys(key1, key2)`
/// and returns `finish()`. The hasher takes no other input than its keys and
/// what is written to it, so the digest is a function of the three arguments.
#[verifier::external_body]
fn path_digest(key1: u128, key2: u128, path: &str) -> (digest: u64)
    ensures
        digest == keyed_path_digest(key1, key2, path@),
{
    let mut hasher = AHasher::new_with_keys(key1, key2);
    Path::new(path).hash(&mut hasher);
    hasher.finish()
}

/// Hashes `label` as an `Option<&str>` into `ahash::AHasher::new_with_keys(key1, key2)`
/// and returns `finish()`. The hasher takes no other input than its keys and
/// what is written to it, so the digest is a function of the three arguments.
#[verifier::external_body]
fn label_digest(key1: u128, key2: u128, label: Option<&str>) -> (digest: u64)
    ensures
        digest == keyed_label_digest(
            key1,
            key2,
            match label {
                Some(text) => Some(text@),
                None => None,
            },
        ),
{
    let mut hasher = AHasher::new_with_keys(key1, key2);
    label.hash(&mut hasher);
    hasher.finish()
}

/// Identity of a source file: the digest of its path. The digest is fixed
/// for one build of the library only, so an identity is not to be stored
/// and compared with one that another build has computed.
#[derive(Debug, Clone, Copy, PartialEq, Eq, Hash, Structural)]
pub struct SourcePathId(pub u64);

/// Identity of a label within a source file: the digest of the optional label.
#[derive(Debug, Clone, Copy, PartialEq, Eq, Hash, Structural)]
pub struct LabelId(pub u64);

/// Identity of one loadable unit: a source file and a label in it.
#[derive(Debug, Clone, Copy, PartialEq, Eq, Hash, Structural)]
pub struct AssetPathId(pub SourcePathId, pub LabelId);

/// The identity of the source file at `path`.
pub open spec fn source_path_id(path: Seq<char>) -> SourcePathId {
    SourcePathId(keyed_path_digest(IDENTITY_KEY_1, IDENTITY_KEY_2, path))
}

/// The identity of the optional label `label`.
pub open spec fn label_id(label: Option<Seq<char>>) -> LabelId {
    LabelId(keyed_label_digest(IDENTITY_KEY_1, IDENTITY_KEY_2, label))
}

/// The identity of the unit that `path` and `label` name.
pub open spec fn asset_path_id(path: Seq<char>, label: Option<Seq<char>>) -> AssetPathId {
    AssetPathId(source_path_id(path), label_id(label))
}

impl<'a> From<&'a str> for SourcePathId {
    fn from(value: &'a str) -> (id: SourcePathId) {
        SourcePathId(path_digest(IDENTITY_KEY_1, IDENTITY_KEY_2, value))
    }
}

impl<'a> FromSpecImpl<&'a str> for SourcePathId {
    open spec fn obeys_from_spec() -> bool {
        true
    }

    open spec fn from_spec(value: &'a str) -> SourcePathId {
        source_path_id(value@)
    }
}

/// The text of an optional string.
pub open spec fn label_text(label: Option<&str>) -> Option<Seq<char>> {
    match label {
        Some(text) => Some(text@),
        None => None,
    }
}

impl<'a> From<Option<&'a str>> for LabelId {
    fn from(value: Option<&'a str>) -> (id: LabelId) {
        LabelId(label_digest(IDENTITY_KEY_1, IDENTITY_KEY_2, value))
    }
}

impl<'a> FromSpecImpl<Option<&'a str>> for LabelId {
    open spec fn obeys_from_spec() -> bool {
        true
    }

    open spec fn from_spec(value: Option<&'a str>) -> LabelId {
        label_id(label_text(value))
    }
}

impl AssetPathId {
    /// The source file's part of the identity.
    pub fn get_source_id(&self) -> (id: SourcePathId)
        ensures
            id == self.0,
    {
        self.0
    }

    /// The label's part of the identity.
    pub fn get_label_id(&self) -> (id: LabelId)
        ensures
            id == self.1,
    {
        self.1
    }
}

/// A path to a file, with an optional label that picks one of the assets the
/// file holds. Written as text, the label follows the first separator:
/// `scene.gltf#Mesh0`.
#[derive(Debug)]
pub struct AssetPath {
    path: String,
    label: Option<String>,
}

/// Where the first separator stands in `text`, or the length of `text` where
/// it holds none.
pub open spec fn separator_index(text: Seq<char>) -> int
    decreases text.len(),
{
    if text.len() == 0 || text[0] == LABEL_SEPARATOR {
        0
    } else {
        1 + separator_index(text.drop_first())
    }
}

/// The path that the written asset path `text` names: what stands before the
/// first separator.
pub open spec fn written_path(text: Seq<char>) -> Seq<char> {
    text.subrange(0, separator_index(text))
}

/// The label that the written asset path `text` names: what stands between
/// the first separator and the second, or the end; none where `text` holds no
/// separator.
pub open spec fn written_label(text: Seq<char>) -> Option<Seq<char>> {
    if separator_index(text) == text.len() {
        None
    } else {
        let rest = text.subrange(separator_index(text) + 1, text.len() as int);
        Some(rest.subrange(0, separator_index(rest)))
    }
}

/// `separator_index` is the least index that holds a separator.
pub proof fn lemma_separator_index(text: Seq<char>)
    ensures
        0 <= separator_index(text) <= text.len(),
        forall|k: int| 0 <= k < separator_index(text) ==> text[k] != LABEL_SEPARATOR,
        separator_index(text) < text.len() ==> text[separator_index(text)] == LABEL_SEPARATOR,
    decreases text.len(),
{
    if text.len() == 0 || text[0] == LABEL_SEPARATOR {
    } else {
        let rest = text.drop_first();
        lemma_separator_index(rest);
        assert forall|k: int| 0 <= k < separator_index(text) implies text[k] != LABEL_SEPARATOR by {
            if k > 0 {
                assert(text[k] == rest[k - 1]);
            }
        }
    }
}

/// An index that holds a separator, with none before it, is `separator_index`;
/// so is the length of a text that holds none.
pub proof fn lemma_separator_index_is(text: Seq<char>, i: int)
    requires
        0 <= i <= text.len(),
        forall|k: int| 0 <= k < i ==> text[k] != LABEL_SEPARATOR,
        i < text.len() ==> text[i] == LABEL_SEPARATOR,
    ensures
        separator_index(text) == i,
{
    lemma_separator_index(text);
    let j = separator_index(text);
    if j < i {
        assert(text[j] != LABEL_SEPARATOR);
    } else if i < j {
        assert(text[i] != LABEL_SEPARATOR);
    }
}

/// The index of the first separator at or after `start`, or the length of
/// `text` where none follows.
fn find_separator(text: &str, start: usize) -> (i: usize)
    requires
        start <= text@.len(),
    ensures
        start <= i <= text@.len(),
        forall|k: int| start <= k < i ==> text@[k] != LABEL_SEPARATOR,
        i < text@.len() ==> text@[i as int] == LABEL_SEPARATOR,
{
    let len = text.unicode_len();
    let mut i: usize = start;
    while i < len
        invariant
            len == text@.len(),
            start <= i <= len,
            forall|k: int| start <= k < i ==> text@[k] != LABEL_SEPARATOR,
        decreases len - i,
    {
        if text.get_char(i) == LABEL_SEPARATOR {
            return i;
        }
        i = i + 1;
    }
    i
}

impl View for AssetPath {
    type V = (Seq<char>, Option<Seq<char>>);

    /// The text of the path and of the label.
    closed spec fn view(&self) -> (Seq<char>, Option<Seq<char>>) {
        (
            self.path@,
            match self.label {
                Some(label) => Some(label@),
                None => None,
            },
        )
    }
}

impl AssetPath {
    /// The text of the path.
    pub open spec fn spec_path(&self) -> Seq<char> {
        self@.0
    }

    /// The text of the label.
    pub open spec fn spec_label(&self) -> Option<Seq<char>> {
        self@.1
    }

    /// The identity of the unit that this path names.
    pub open spec fn spec_id(&self) -> AssetPathId {
        asset_path_id(self.spec_path(), self.spec_label())
    }

    /// An asset path of the given path and label.
    pub fn new_ref(path: &str, label: Option<&str>) -> (asset_path: AssetPath)
        ensures
            asset_path@ == (path@, label_text(label)),
    {
        AssetPath {
            path: path.to_owned(),
            label: match label {
                Some(text) => Some(text.to_owned()),
                None => None,
            },
        }
    }

    /// An asset path that takes over the given path and label.
    pub fn new(path: String, label: Option<String>) -> (asset_path: AssetPath)
        ensures
            asset_path@ == (
                path@,
                match label {
                    Some(text) => Some(text@),
                    None => None,
                },
            ),
    {
        AssetPath { path, label }
    }

    /// The path of the file.
    pub fn path(&self) -> (path: &str)
        ensures
            path@ == self.spec_path(),
    {
        self.path.as_str()
    }

    /// The label within the file, if there is one.
    pub fn label(&self) -> (label: Option<&str>)
        ensures
            label_text(label) == self.spec_label(),
    {
        match &self.label {
            Some(text) => Some(text.as_str()),
            None => None,
        }
    }

    /// The identity of the unit that this path names. Paths of equal text and
    /// labels of equal text give equal identities.
    pub fn get_id(&self) -> (id: AssetPathId)
        ensures
            id == self.spec_id(),
    {
        AssetPathId(SourcePathId::from(self.path()), LabelId::from(self.label()))
    }

    /// A copy that owns its text.
    pub fn to_owned(&self) -> (asset_path: AssetPath)
        ensures
            asset_path@ == self@,
    {
        AssetPath {
            path: self.path.clone(),
            label: match &self.label {
                Some(text) => Some(text.clone()),
                None => None,
            },
        }
    }
}

impl<'a> From<&'a str> for AssetPath {
    /// Reads a written asset path: the path stands before the first
    /// separator, the label between the first and the second.
    fn from(p: &'a str) -> (asset_path: AssetPath)
        ensures
            asset_path@ == (written_path(p@), written_label(p@)),
    {
        let len = p.unicode_len();
        let first = find_separator(p, 0);
        proof {
            lemma_separator_index_is(p@, first as int);
        }
        let path = p.substring_char(0, first).to_owned();
        if first == len {
            AssetPath { path, label: None }
        } else {
            let rest = p.substring_char(first + 1, len);
            let second = find_separator(rest, 0);
            proof {
                lemma_separator_index_is(rest@, second as int);
            }
            let label = rest.substring_char(0, second).to_owned();
            AssetPath { path, label: Some(label) }
        }
    }
}

/// What `from` makes of a written path is stated of the view of its result,
/// not of the result itself.
impl<'a> FromSpecImpl<&'a str> for AssetPath {
    open spec fn obeys_from_spec() -> bool {
        false
    }

    open spec fn from_spec(p: &'a str) -> AssetPath {
        arbitrary()
    }
}

impl<'a> From<&'a AssetPath> for AssetPathId {
    fn from(value: &'a AssetPath) -> (id: AssetPathId) {
        value.get_id()
    }
}

impl<'a> FromSpecImpl<&'a AssetPath> for AssetPathId {
    open spec fn obeys_from_spec() -> bool {
        true
    }

    open spec fn from_spec(value: &'a AssetPath) -> AssetPathId {
        value.spec_id()
    }
}

/// Two asset paths of equal path and label have the same identity.
pub proof fn lemma_equal_text_equal_id(a: AssetPath, b: AssetPath)
    requires
        a@ == b@,
    ensures
        a.spec_id() == b.spec_id(),
{
}

/// What every stored value is: it can be handed to another thread and holds
/// no borrowed data.
pub trait AssetDynamic: Send + Sync + 'static {

}

impl<T: Send + Sync + 'static> AssetDynamic for T {

}

/// A type whose values can be loaded and stored. Each such type names itself
/// by an identifier of its own.
pub trait Asset: AssetDynamic + Sized {
    /// The 128 bits of the identifier of this type.
    const TYPE_UUID: u128;

    /// Gives up the value's type: the value goes into a box that any asset
    /// fits in.
    fn erase(self) -> (erased: ErasedValue) {
        erase_asset(self)
    }

    /// Takes a value of this type out of a box, or gives the box back where
    /// it holds a value of another type.
    fn recover(erased: ErasedValue) -> (result: Result<Self, ErasedValue>) {
        recover_asset(erased)
    }
}

/// The identifier of the asset type `T`.
pub open spec fn type_uuid_of<T: Asset>() -> TypeUuid {
    TypeUuid(T::TYPE_UUID)
}

/// The identifier of the asset type `T`.
pub fn type_uuid<T: Asset>() -> (id: TypeUuid)
    ensures
        id == type_uuid_of::<T>(),
{
    TypeUuid(T::TYPE_UUID)
}

/// Where a sequence of bytes stops being UTF-8. `valid_up_to` bytes from the
/// start are valid; `error_len` is the number of bytes to skip behind them,
/// or nothing where the input ends inside a character.
#[derive(Copy, Eq, PartialEq, Clone, Debug)]
pub struct TestUtf8Error {
    pub valid_up_to: usize,
    pub error_len: Option<u8>,
}

/// Why a loader gave up on a file.
#[derive(Debug)]
pub enum LoaderFailure {
    /// The file was to hold text and is not UTF-8.
    InvalidText(TestUtf8Error),
    /// Another reason, in the loader's words.
    Other(String),
}

/// Turns the bytes of one file into assets. A loader stores what it finds in
/// the context and leaves the context's path and version alone.
pub trait AssetLoader: Send + Sync {
    /// Loads the assets that `bytes` holds into `load_context`.
    fn load(&self, bytes: &[u8], load_context: &mut LoadContext) -> (result: Result<
        (),
        LoaderFailure,
    >)
        ensures
            final(load_context).spec_version() == old(load_context).spec_version(),
            final(load_context).spec_path() == old(load_context).spec_path(),
    ;
}

/// Whether `error` tells where `bytes` stop being UTF-8: the bytes are not
/// valid as a whole, `valid_up_to` is the length of their longest valid
/// prefix, and the bytes to skip, where the error names any, lie within the
/// input.
pub open spec fn locates_invalid_utf8(bytes: Seq<u8>, error: TestUtf8Error) -> bool {
    &&& !valid_utf8(bytes)
    &&& error.valid_up_to <= bytes.len()
    &&& valid_utf8(bytes.subrange(0, error.valid_up_to as int))
    &&& forall|longer: int|
        error.valid_up_to < longer <= bytes.len() ==> !valid_utf8(
            #[trigger] bytes.subrange(0, longer),
        )
    &&& match error.error_len {
        Some(skip) => error.valid_up_to + skip <= bytes.len(),
        None => true,
    }
}

/// `std::str::from_utf8`: the text that `bytes` encode, where they are valid
/// UTF-8; else `Utf8Error::valid_up_to`, the greatest length of a prefix
/// that is valid, and `Utf8Error::error_len`, the length of the invalid
/// sequence behind it.
#[verifier::external_body]
fn text_from_utf8(bytes: &[u8]) -> (result: Result<&str, TestUtf8Error>)
    ensures
        (match result {
            Ok(text) => valid_utf8(bytes@) && text@ == decode_utf8(bytes@),
            Err(error) => locates_invalid_utf8(bytes@, error),
        }),
{
    match std::str::from_utf8(bytes) {
        Ok(text) => Ok(text),
        Err(error) => Err(
            TestUtf8Error {
                valid_up_to: error.valid_up_to(),
                error_len: match error.error_len() {
                    Some(len) => Some(len as u8),
                    None => None,
                },
            },
        ),
    }
}

/// A text file as an asset: its content.
#[derive(Debug)]
pub struct TextAsset(pub String);

impl Asset for TextAsset {
    const TYPE_UUID: u128 = 0x7435ff9a_3b73_4928_bee6_c47e25d3f942;

    /// The box holds the text.
    fn erase(self) -> (erased: ErasedValue)
        ensures
            crate::loader::erased_text(erased) == Some(self.0@),
    {
        erase_text(self)
    }

    /// The asset has the text that the box held; a box that holds no text
    /// is given back.
    fn recover(erased: ErasedValue) -> (result: Result<Self, ErasedValue>)
        ensures
            match result {
                Ok(asset) => crate::loader::erased_text(erased) == Some(asset.0@),
                Err(back) => crate::loader::erased_text(erased) is None && back == erased,
            },
    {
        recover_text(erased)
    }
}

/// A box of a text holds that text.
pub proof fn lemma_boxed_text(boxed: BoxedAsset, asset: TextAsset)
    requires
        boxed.holds(asset),
    ensures
        boxed.spec_text() == Some(asset.0@),
{
}

/// A box that holds a text is unboxed to an asset of that text, and never
/// refused; a box that is unboxed to a text held it.
pub proof fn lemma_unboxed_text(boxed: BoxedAsset, result: Result<TextAsset, BoxedAsset>)
    requires
        boxed.unboxes_to(result),
    ensures
        match result {
            Ok(asset) => boxed.spec_text() == Some(asset.0@),
            Err(back) => boxed.spec_text() is None && back.spec_value() == boxed.spec_value(),
        },
        boxed.spec_text() is Some ==> !boxed.may_fail_as::<TextAsset>(),
{
    if boxed.spec_text() is Some && boxed.may_fail_as::<TextAsset>() {
        let back = choose|back: BoxedAsset| #[trigger]
            boxed.unboxes_to(Err::<TextAsset, BoxedAsset>(back));
        assert(boxed.unboxes_to(Err::<TextAsset, BoxedAsset>(back)));
    }
}

/// The identifier of `TextAsset`.
pub proof fn lemma_text_asset_uuid()
    ensures
        type_uuid_of::<TextAsset>() == TypeUuid(0x7435ff9a_3b73_4928_bee6_c47e25d3f942),
{
}

/// Loads a file of UTF-8 text as one `TextAsset` without label.
pub struct TextAssetLoader {}

impl AssetLoader for TextAssetLoader {
    /// Stores the text that `bytes` encode as the file's unlabelled asset.
    /// Bytes that are not UTF-8 are refused, and nothing is stored.
    fn load(&self, bytes: &[u8], load_context: &mut LoadContext) -> (result: Result<
        (),
        LoaderFailure,
    >)
        ensures
            valid_utf8(bytes@) ==> result is Ok && exists|boxed: BoxedAsset| #[trigger]
                boxed.spec_text() == Some(decode_utf8(bytes@)) && boxed.spec_type_uuid()
                    == type_uuid_of::<TextAsset>() && final(load_context).entries() == with_entry(
                    old(load_context).entries(),
                    LoadedEntry { label: None, value: boxed, dependencies: Seq::empty() },
                ),
            !valid_utf8(bytes@) ==> final(load_context).entries() == old(load_context).entries()
                && result is Err && result->Err_0 is InvalidText && locates_invalid_utf8(
                bytes@,
                result->Err_0->InvalidText_0,
            ),
    {
        match text_from_utf8(bytes) {
            Ok(text) => {
                let asset = TextAsset(text.to_owned());
                let ghost stored = asset;
                load_context.set_default_asset(LoadedAsset::new(asset));
                proof {
                    let boxed = choose|boxed: BoxedAsset| #[trigger]
                        boxed.holds(stored) && load_context.entries() == with_entry(
                            old(load_context).entries(),
                            LoadedEntry { label: None, value: boxed, dependencies: Seq::empty() },
                        );
                    lemma_boxed_text(boxed, stored);
                    assert(boxed.spec_text() == Some(decode_utf8(bytes@)));
                }
                Ok(())
            },
            Err(error) => Err(LoaderFailure::InvalidText(error)),
        }
    }
}

} // verus!
