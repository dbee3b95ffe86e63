//! The table that stores the assets of one type, and the events that tell of
//! its changes.

use crate::asset::Asset;
use crate::handle::Handle;
use crate::handle::HandleId;
use crate::table::lemma_table_len;
use crate::table::lemma_table_push;
use crate::table::lemma_table_remove;
use crate::table::lemma_table_update;
use crate::table::table_of;
use vstd::prelude::*;

verus! {

/// A change of the table.
#[derive(Debug)]
pub enum AssetEvent<T: Asset> {
    /// A value was stored under a handle that had none.
    Created { handle: Handle<T> },
    /// The value under the handle was replaced, or handed out for change.
    Modified { handle: Handle<T> },
    /// The value under the handle was taken out.
    Removed { handle: Handle<T> },
}

/// The table as contracts see it: the value under each handle, and the
/// events that were not handed out yet, oldest first.
pub struct AssetsState<T: Asset> {
    pub values: Map<HandleId, T>,
    pub events: Seq<AssetEvent<T>>,
}

/// The table after `asset` was stored under `id`: the value stands there,
/// and one event was added, `Modified` where the handle had a value and
/// `Created` where it had none.
pub open spec fn after_set<T: Asset>(state: AssetsState<T>, id: HandleId, asset: T) -> AssetsState<
    T,
> {
    AssetsState {
        values: state.values.insert(id, asset),
        events: state.events.push(
            if state.values.contains_key(id) {
                AssetEvent::Modified { handle: Handle::of(id) }
            } else {
                AssetEvent::Created { handle: Handle::of(id) }
            },
        ),
    }
}

/// The table after the value under `id` was taken out: where there was one,
/// it is gone and `Removed` was added; else nothing changed.
pub open spec fn after_remove<T: Asset>(state: AssetsState<T>, id: HandleId) -> AssetsState<T> {
    if state.values.contains_key(id) {
        AssetsState {
            values: state.values.remove(id),
            events: state.events.push(AssetEvent::Removed { handle: Handle::of(id) }),
        }
    } else {
        state
    }
}

/// The table after each of `assets` was stored under the handle beside it
/// in `ids`, one after the other.
pub open spec fn after_sets<T: Asset>(
    state: AssetsState<T>,
    ids: Seq<HandleId>,
    assets: Seq<T>,
) -> AssetsState<T>
    recommends
        ids.len() == assets.len(),
    decreases ids.len(),
{
    if ids.len() == 0 {
        state
    } else {
        after_set(after_sets(state, ids.drop_last(), assets.drop_last()), ids.last(), assets.last())
    }
}

/// Storing values under handles that are distinct and new to the table adds
/// one `Created` event for each handle, in the order of storing, and no
/// other event; the table holds each value under its handle.
pub proof fn lemma_new_handles_are_created<T: Asset>(
    state: AssetsState<T>,
    ids: Seq<HandleId>,
    assets: Seq<T>,
)
    requires
        ids.len() == assets.len(),
        ids.no_duplicates(),
        forall|i: int| 0 <= i < ids.len() ==> !state.values.contains_key(#[trigger] ids[i]),
    ensures
        after_sets(state, ids, assets).events == state.events + ids.map_values(
            |id: HandleId| AssetEvent::Created { handle: Handle::<T>::of(id) },
        ),
        after_sets(state, ids, assets).events.len() == state.events.len() + ids.len(),
        forall|id: HandleId| #[trigger]
            after_sets(state, ids, assets).values.contains_key(id) <==> (state.values.contains_key(
                id,
            ) || ids.contains(id)),
        forall|i: int|
            0 <= i < ids.len() ==> after_sets(state, ids, assets).values[#[trigger] ids[i]]
                == assets[i],
    decreases ids.len(),
{
    if ids.len() > 0 {
        let front = ids.drop_last();
        lemma_new_handles_are_created(state, front, assets.drop_last());
        let before = after_sets(state, front, assets.drop_last());
        let after = after_sets(state, ids, assets);
        let created = |id: HandleId| AssetEvent::Created { handle: Handle::<T>::of(id) };
        assert(!front.contains(ids.last())) by {
            if front.contains(ids.last()) {
                let k = front.index_of(ids.last());
                assert(ids[k] == ids[ids.len() - 1]);
            }
        }
        assert(!before.values.contains_key(ids.last()));
        assert(ids.map_values(created) == front.map_values(created).push(created(ids.last())));
        assert(after.events == state.events + ids.map_values(created));
        assert forall|id: HandleId| #[trigger]
            after.values.contains_key(id) <==> (state.values.contains_key(id) || ids.contains(
                id,
            )) by {
            if front.contains(id) {
                assert(ids[front.index_of(id)] == id);
            }
            if id == ids.last() {
                assert(ids[ids.len() - 1] == id);
            }
            if ids.contains(id) && id != ids.last() {
                assert(front[ids.index_of(id)] == id);
            }
        }
        assert forall|i: int| 0 <= i < ids.len() implies after.values[#[trigger] ids[i]]
            == assets[i] by {
            if i < front.len() {
                assert(front[i] == ids[i]);
                assert(assets.drop_last()[i] == assets[i]);
            }
        }
    } else {
        assert(ids.map_values(
            |id: HandleId| AssetEvent::Created { handle: Handle::<T>::of(id) },
        ) == Seq::<AssetEvent<T>>::empty());
    }
}

/// `Vec::shrink_to_fit`: the capacity may drop, the elements stay.
#[verifier::external_body]
fn shrink<V>(values: &mut Vec<V>)
    ensures
        final(values)@ == old(values)@,
{
    values.shrink_to_fit();
}

/// The table of the assets of type `T`. It alone owns the values; a handle
/// is a key into it.
pub struct Assets<T: Asset> {
    ids: Vec<HandleId>,
    values: Vec<T>,
    events: Vec<AssetEvent<T>>,
}

impl<T: Asset> View for Assets<T> {
    type V = AssetsState<T>;

    closed spec fn view(&self) -> AssetsState<T> {
        AssetsState { values: table_of(self.ids@, self.values@), events: self.events@ }
    }
}

impl<T: Asset> Assets<T> {
    /// What holds of every table: each handle stands in it once, beside its
    /// value.
    pub closed spec fn wf(&self) -> bool {
        &&& self.ids@.len() == self.values@.len()
        &&& self.ids@.no_duplicates()
    }

    /// The handles of a well-formed table are finitely many.
    pub proof fn lemma_finite(&self)
        requires
            self.wf(),
        ensures
            self@.values.dom().finite(),
            self@.values.dom().len() == self.spec_len(),
    {
        lemma_table_len(self.ids@, self.values@);
    }

    /// The number of values in the table.
    pub closed spec fn spec_len(&self) -> nat {
        self.ids@.len()
    }

    /// An empty table without events.
    pub fn new() -> (assets: Self)
        ensures
            assets.wf(),
            assets@ == (AssetsState::<T> { values: Map::empty(), events: Seq::empty() }),
    {
        let assets = Assets { ids: Vec::new(), values: Vec::new(), events: Vec::new() };
        assert(assets@.values == Map::<HandleId, T>::empty());
        assets
    }

    /// Where `id` stands in the table, or the number of handles where it
    /// does not.
    fn position(&self, id: HandleId) -> (index: usize)
        requires
            self.wf(),
        ensures
            index <= self.ids@.len(),
            index < self.ids@.len() ==> self.ids@[index as int] == id && self.ids@.index_of(id)
                == index,
            index == self.ids@.len() ==> !self.ids@.contains(id),
    {
        let mut index: usize = 0;
        while index < self.ids.len()
            invariant
                self.ids@.no_duplicates(),
                index <= self.ids@.len(),
                forall|k: int| 0 <= k < index ==> self.ids@[k] != id,
            decreases self.ids@.len() - index,
        {
            if self.ids[index] == id {
                assert(self.ids@.contains(id));
                return index;
            }
            index = index + 1;
        }
        index
    }

    /// Stores `asset` under `handle` and returns the typed handle.
    pub fn set(&mut self, handle: HandleId, asset: T) -> (typed: Handle<T>)
        requires
            old(self).wf(),
        ensures
            final(self).wf(),
            final(self)@ == after_set(old(self)@, handle, asset),
            typed == Handle::<T>::of(handle),
    {
        self.set_untracked(handle, asset);
        self.get_handle(handle)
    }

    /// Stores `asset` under `handle`.
    pub fn set_untracked(&mut self, handle: HandleId, asset: T)
        requires
            old(self).wf(),
        ensures
            final(self).wf(),
            final(self)@ == after_set(old(self)@, handle, asset),
    {
        let index = self.position(handle);
        if index < self.ids.len() {
            proof {
                lemma_table_update(self.ids@, self.values@, index as int, asset);
            }
            self.values[index] = asset;
            self.events.push(AssetEvent::Modified { handle: Handle::new(handle) });
        } else {
            proof {
                lemma_table_push(self.ids@, self.values@, handle, asset);
            }
            self.ids.push(handle);
            self.values.push(asset);
            self.events.push(AssetEvent::Created { handle: Handle::new(handle) });
        }
    }

    /// The value under `handle`, if there is one.
    pub fn get(&self, handle: HandleId) -> (asset: Option<&T>)
        requires
            self.wf(),
        ensures
            (match asset {
                Some(value) => self@.values.contains_key(handle) && *value == self@.values[handle],
                None => !self@.values.contains_key(handle),
            }),
    {
        let index = self.position(handle);
        if index < self.ids.len() {
            Some(&self.values[index])
        } else {
            None
        }
    }

    /// Whether a value stands under `handle`.
    pub fn contains(&self, handle: HandleId) -> (has: bool)
        requires
            self.wf(),
        ensures
            has == self@.values.contains_key(handle),
    {
        let index = self.position(handle);
        index < self.ids.len()
    }

    /// The value under `handle`, for change, if there is one. The table
    /// takes note of a change whether or not the caller makes one, and
    /// whether or not there is a value.
    pub fn get_mut(&mut self, handle: HandleId) -> (asset: Option<&mut T>)
        requires
            old(self).wf(),
        ensures
            final(self).wf(),
            final(self)@.events == old(self)@.events.push(
                AssetEvent::Modified { handle: Handle::of(handle) },
            ),
            (match asset {
                Some(value) => {
                    &&& old(self)@.values.contains_key(handle)
                    &&& *value == old(self)@.values[handle]
                    &&& final(self)@.values == old(self)@.values.insert(handle, *final(value))
                },
                None => {
                    &&& !old(self)@.values.contains_key(handle)
                    &&& final(self)@.values == old(self)@.values
                },
            }),
    {
        let index = self.position(handle);
        self.events.push(AssetEvent::Modified { handle: Handle::new(handle) });
        if index < self.ids.len() {
            proof {
                let ids = self.ids@;
                let values = self.values@;
                assert forall|value: T| #[trigger]
                    table_of(ids, values.update(index as int, value)) == table_of(
                        ids,
                        values,
                    ).insert(handle, value) by {
                    lemma_table_update(ids, values, index as int, value);
                }
            }
            Some(&mut self.values[index])
        } else {
            assert(self@.values == old(self)@.values);
            None
        }
    }

    /// The value under `handle`, for change; where there is none, the value
    /// that `insert_fn` makes is stored first.
    pub fn get_or_insert_with<F: FnOnce() -> T>(&mut self, handle: HandleId, insert_fn: F) -> (asset:
        &mut T)
        requires
            old(self).wf(),
            insert_fn.requires(()),
        ensures
            final(self).wf(),
            (if old(self)@.values.contains_key(handle) {
                &&& *asset == old(self)@.values[handle]
                &&& final(self)@.events == old(self)@.events
            } else {
                &&& insert_fn.ensures((), *asset)
                &&& final(self)@.events == old(self)@.events.push(
                    AssetEvent::Created { handle: Handle::of(handle) },
                )
            }),
            final(self)@.values == old(self)@.values.insert(handle, *final(asset)),
    {
        let index = self.position(handle);
        if index == self.ids.len() {
            let made = insert_fn();
            self.set_untracked(handle, made);
            assert(self@.values.contains_key(handle) && self@.values[handle] == made);
        }
        assert(self.ids@.contains(handle));
        let at = self.position(handle);
        assert(self.values@[at as int] == self@.values[handle]);
        proof {
            let ids = self.ids@;
            let values = self.values@;
            assert forall|value: T| #[trigger]
                table_of(ids, values.update(at as int, value)) == old(self)@.values.insert(
                    handle,
                    value,
                ) by {
                lemma_table_update(ids, values, at as int, value);
                assert(table_of(ids, values).insert(handle, value) == old(self)@.values.insert(
                    handle,
                    value,
                ));
            }
        }
        &mut self.values[at]
    }

    /// The typed handle for `handle`.
    pub fn get_handle(&self, handle: HandleId) -> (typed: Handle<T>)
        ensures
            typed == Handle::<T>::of(handle),
    {
        Handle::new(handle)
    }

    /// The handles that have a value, each once.
    pub fn ids(&self) -> (ids: Vec<HandleId>)
        requires
            self.wf(),
        ensures
            ids@.no_duplicates(),
            ids@.to_set() == self@.values.dom(),
    {
        let ids = self.ids.clone();
        assert(ids@ == self.ids@);
        assert(ids@.to_set() == self@.values.dom());
        ids
    }

    /// Every handle that has a value, once, with the value.
    pub fn iter(&self) -> (pairs: Vec<(HandleId, &T)>)
        requires
            self.wf(),
        ensures
            pairs@.len() == self@.values.dom().len(),
            pairs@.map_values(|pair: (HandleId, &T)| pair.0).no_duplicates(),
            forall|i: int|
                0 <= i < pairs@.len() ==> self@.values.contains_key((#[trigger] pairs@[i]).0)
                    && *pairs@[i].1 == self@.values[pairs@[i].0],
    {
        proof {
            self.lemma_finite();
        }
        let mut pairs: Vec<(HandleId, &T)> = Vec::new();
        let mut index: usize = 0;
        while index < self.ids.len()
            invariant
                self.wf(),
                index <= self.ids@.len(),
                pairs@.len() == index,
                forall|i: int|
                    0 <= i < index ==> (#[trigger] pairs@[i]).0 == self.ids@[i] && *pairs@[i].1
                        == self.values@[i],
            decreases self.ids@.len() - index,
        {
            pairs.push((self.ids[index], &self.values[index]));
            index = index + 1;
        }
        proof {
            let firsts = pairs@.map_values(|pair: (HandleId, &T)| pair.0);
            assert(firsts == self.ids@);
            assert forall|i: int| 0 <= i < pairs@.len() implies self@.values.contains_key(
                (#[trigger] pairs@[i]).0,
            ) && *pairs@[i].1 == self@.values[pairs@[i].0] by {
                assert(self.ids@.contains(self.ids@[i]));
                assert(self.ids@.index_of(self.ids@[i]) == i);
            }
        }
        pairs
    }

    /// Takes the value under `handle` out of the table.
    pub fn remove(&mut self, handle: HandleId) -> (asset: Option<T>)
        requires
            old(self).wf(),
        ensures
            final(self).wf(),
            final(self)@ == after_remove(old(self)@, handle),
            asset == if old(self)@.values.contains_key(handle) {
                Some(old(self)@.values[handle])
            } else {
                None
            },
    {
        let index = self.position(handle);
        if index < self.ids.len() {
            self.ids.remove(index);
            let asset = self.values.remove(index);
            self.events.push(AssetEvent::Removed { handle: Handle::new(handle) });
            proof {
                lemma_table_remove(old(self).ids@, old(self).values@, index as int);
            }
            Some(asset)
        } else {
            None
        }
    }

    /// Drops every value. No event tells of it.
    pub fn clear(&mut self)
        ensures
            final(self).wf(),
            final(self)@ == (AssetsState::<T> { values: Map::empty(), events: old(self)@.events }),
    {
        self.ids.clear();
        self.values.clear();
        assert(self@.values == Map::<HandleId, T>::empty());
    }

    /// Makes room for `additional` more values. The table holds what it held.
    pub fn reserve(&mut self, additional: usize)
        ensures
            final(self).wf() == old(self).wf(),
            final(self)@ == old(self)@,
    {
        self.ids.reserve(additional);
        self.values.reserve(additional);
        assert(self@.values == old(self)@.values);
    }

    /// Gives back the room that the table does not need. The table holds
    /// what it held.
    pub fn shrink_to_fit(&mut self)
        ensures
            final(self).wf() == old(self).wf(),
            final(self)@ == old(self)@,
    {
        shrink(&mut self.ids);
        shrink(&mut self.values);
    }

    /// Hands out the events that tell of the changes since the last call,
    /// oldest first.
    pub fn drain_events(&mut self) -> (events: Vec<AssetEvent<T>>)
        ensures
            final(self).wf() == old(self).wf(),
            events@ == old(self)@.events,
            final(self)@ == (AssetsState::<T> { values: old(self)@.values, events: Seq::empty() }),
    {
        let mut events: Vec<AssetEvent<T>> = Vec::new();
        events.append(&mut self.events);
        assert(self@.values == old(self)@.values);
        events
    }

    /// The number of values in the table.
    pub fn len(&self) -> (len: usize)
        requires
            self.wf(),
        ensures
            len == self@.values.dom().len(),
            len == self.spec_len(),
    {
        proof {
            self.lemma_finite();
        }
        self.ids.len()
    }

    /// Whether the table holds no value.
    pub fn is_empty(&self) -> (empty: bool)
        requires
            self.wf(),
        ensures
            empty == (self@.values == Map::<HandleId, T>::empty()),
    {
        let empty = self.ids.len() == 0;
        proof {
            if empty {
                assert(self@.values == Map::<HandleId, T>::empty());
            } else {
                assert(self.ids@.contains(self.ids@[0]));
                assert(self@.values.contains_key(self.ids@[0]));
            }
        }
        empty
    }
}

} // verus!
