//! Keys under which assets are looked up.

use crate::asset::type_uuid;
use crate::asset::type_uuid_of;
use crate::asset::Asset;
use crate::asset::AssetPath;
use crate::asset::AssetPathId;
use crate::asset_server::AssetServerError;
use std::marker::PhantomData;
use vstd::prelude::*;
use vstd::std_specs::convert::FromSpecImpl;

verus! {

/// The 128 bits of the identifier that names an asset type.
#[derive(Debug, Clone, Copy, Hash, PartialEq, Eq, Structural)]
pub struct TypeUuid(pub u128);

/// What a handle points at. An asset that came from a file is known by its
/// path's identity, any other by its type and a number.
#[derive(Debug, Clone, Copy, Hash, PartialEq, Eq, Structural)]
pub enum HandleId {
    /// An asset that was not loaded from a file.
    Id(TypeUuid, u64),
    /// An asset that was loaded from a file.
    AssetPathId(AssetPathId),
}

impl From<AssetPathId> for HandleId {
    fn from(value: AssetPathId) -> (id: HandleId) {
        HandleId::AssetPathId(value)
    }
}

impl FromSpecImpl<AssetPathId> for HandleId {
    open spec fn obeys_from_spec() -> bool {
        true
    }

    open spec fn from_spec(value: AssetPathId) -> HandleId {
        HandleId::AssetPathId(value)
    }
}

impl From<AssetPath> for HandleId {
    fn from(value: AssetPath) -> (id: HandleId) {
        HandleId::AssetPathId(value.get_id())
    }
}

impl FromSpecImpl<AssetPath> for HandleId {
    open spec fn obeys_from_spec() -> bool {
        true
    }

    open spec fn from_spec(value: AssetPath) -> HandleId {
        HandleId::AssetPathId(value.spec_id())
    }
}

/// A key for an asset of type `T`. It owns nothing: the table that stores the
/// value is looked up with it.
#[derive(Debug)]
pub struct Handle<T: Asset> {
    id: HandleId,
    marker: PhantomData<T>,
}

impl<T: Asset> View for Handle<T> {
    type V = HandleId;

    /// What the handle points at.
    closed spec fn view(&self) -> HandleId {
        self.id
    }
}

impl<T: Asset> Handle<T> {
    /// The handle to the asset that `id` names.
    pub closed spec fn of(id: HandleId) -> Self {
        Self { id, marker: PhantomData }
    }

    /// A handle to the asset that `id` names.
    pub fn new(id: HandleId) -> (handle: Self)
        ensures
            handle == Self::of(id),
            handle@ == id,
    {
        Self { id, marker: PhantomData }
    }

    /// A handle is known by what it points at.
    pub broadcast proof fn lemma_of_view(id: HandleId)
        ensures
            (#[trigger] Self::of(id))@ == id,
    {
    }
}

impl<T: Asset> Clone for Handle<T> {
    fn clone(&self) -> (handle: Self)
        ensures
            handle == *self,
    {
        Self { id: self.id, marker: PhantomData }
    }
}

impl<T: Asset> Copy for Handle<T> {

}

impl<T: Asset> PartialEq for Handle<T> {
    fn eq(&self, other: &Self) -> (equal: bool) {
        self.id == other.id
    }
}

impl<T: Asset> vstd::std_specs::cmp::PartialEqSpecImpl for Handle<T> {
    open spec fn obeys_eq_spec() -> bool {
        true
    }

    open spec fn eq_spec(&self, other: &Self) -> bool {
        self@ == other@
    }
}

impl<T: Asset> Eq for Handle<T> {

}

impl<T: Asset> From<Handle<T>> for HandleId {
    fn from(value: Handle<T>) -> (id: HandleId) {
        value.id
    }
}

impl<T: Asset> FromSpecImpl<Handle<T>> for HandleId {
    open spec fn obeys_from_spec() -> bool {
        true
    }

    open spec fn from_spec(value: Handle<T>) -> HandleId {
        value@
    }
}

/// A key for an asset whose type is not stated.
#[derive(Debug, Clone, Copy, Hash, PartialEq, Eq, Structural)]
pub struct HandleUntyped {
    pub id: HandleId,
}

impl HandleUntyped {
    /// Whether this handle may stand for an asset of type `T`. A handle that
    /// carries a type identifier must carry that of `T`; one that came from a
    /// path carries none and is taken on trust.
    pub open spec fn is_of<T: Asset>(&self) -> bool {
        match self.id {
            HandleId::Id(type_uuid, _) => type_uuid == type_uuid_of::<T>(),
            HandleId::AssetPathId(_) => true,
        }
    }

    /// The typed handle to the same asset.
    pub fn typed<T: Asset>(self) -> (handle: Handle<T>)
        requires
            self.is_of::<T>(),
        ensures
            handle == Handle::<T>::of(self.id),
            handle@ == self.id,
    {
        Handle { id: self.id, marker: PhantomData }
    }

    /// What converting this handle to a handle of type `T` gives: the typed
    /// handle to the same asset, or `IncorrectHandleType` where the handle
    /// carries the identifier of another type than `T`.
    pub open spec fn typed_result<T: Asset>(&self) -> Result<Handle<T>, AssetServerError> {
        if self.is_of::<T>() {
            Ok(Handle::of(self.id))
        } else {
            Err(AssetServerError::IncorrectHandleType)
        }
    }

    /// The typed handle to the same asset, or `IncorrectHandleType` where the
    /// handle carries the identifier of another type than `T`.
    pub fn try_typed<T: Asset>(self) -> (result: Result<Handle<T>, AssetServerError>)
        ensures
            result == self.typed_result::<T>(),
            result is Ok ==> result->Ok_0@ == self.id,
    {
        if let HandleId::Id(carried, _) = self.id {
            if type_uuid::<T>() != carried {
                return Err(AssetServerError::IncorrectHandleType);
            }
        }
        Ok(self.typed())
    }
}

impl<'a> From<&'a HandleUntyped> for HandleId {
    fn from(value: &'a HandleUntyped) -> (id: HandleId) {
        value.id
    }
}

impl<'a> FromSpecImpl<&'a HandleUntyped> for HandleId {
    open spec fn obeys_from_spec() -> bool {
        true
    }

    open spec fn from_spec(value: &'a HandleUntyped) -> HandleId {
        value.id
    }
}

/// A handle that carries the identifier of a type converts to a handle of
/// type `T` exactly where the identifier is that of `T`, whatever its
/// number: the conversion then gives a typed handle that converts back to
/// the identifier it came from; for any other type it fails, and gives no
/// handle.
pub proof fn lemma_typed_checks_type<T: Asset>(type_uuid: TypeUuid, number: u64)
    ensures
        (HandleUntyped { id: HandleId::Id(type_uuid, number) }).is_of::<T>() <==> type_uuid
            == type_uuid_of::<T>(),
        type_uuid != type_uuid_of::<T>() ==> (HandleUntyped {
            id: HandleId::Id(type_uuid, number),
        }).typed_result::<T>() == Err::<Handle<T>, AssetServerError>(
            AssetServerError::IncorrectHandleType,
        ),
        type_uuid == type_uuid_of::<T>() ==> (HandleUntyped {
            id: HandleId::Id(type_uuid, number),
        }).typed_result::<T>() == Ok::<Handle<T>, AssetServerError>(
            Handle::of(HandleId::Id(type_uuid, number)),
        ),
        <HandleId as vstd::std_specs::convert::FromSpec<Handle<T>>>::from_spec(
            Handle::<T>::of(HandleId::Id(type_uuid, number)),
        ) == HandleId::Id(type_uuid, number),
{
}

} // verus!
