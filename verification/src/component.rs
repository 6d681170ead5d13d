//! Component types and their packed stores.

use crate::entity::Entity;
use crate::packed::Packed;
use std::collections::HashMap;
use vstd::prelude::*;

verus! {

/// The small integer under which one type of component is registered. It
/// is the index of that type's bit in a signature.
#[derive(Copy, Clone, Debug, PartialEq, Eq, Hash, Structural)]
pub struct ComponentType {
    /// The registered id.
    pub id: u16,
}

impl ComponentType {
    /// The component type registered under `id`.
    pub fn new(id: u16) -> (component: ComponentType)
        ensures
            component.id == id,
    {
        ComponentType { id: id }
    }
}

/// Marks a type as usable for component data: a sized type that borrows
/// nothing, so that a registry can tell component types apart by type.
pub trait Component: Sized + 'static {

}

/// What a coordinator that owns stores of several component types needs
/// of each of them: a way to tell it that an entity is gone.
pub trait ComponentStorage {
    /// The storage is in a state in which it can be used.
    spec fn storage_wf(&self) -> bool;

    /// Whether the storage holds data for `entity`.
    spec fn holds(&self, entity: Entity) -> bool;

    /// Purges whatever the storage holds for `entity`; does nothing when it
    /// holds nothing for it. No other entity is affected.
    fn destroy_entity(&mut self, entity: Entity)
        requires
            old(self).storage_wf(),
        ensures
            final(self).storage_wf(),
            !final(self).holds(entity),
            forall|other: Entity|
                other != entity ==> (#[trigger] final(self).holds(other) == old(self).holds(other)),
    ;
}

/// A packed store for the components of one type: the values lie without
/// gaps in one array, and two index maps, inverse to each other, lead from
/// an entity to its slot and back.
pub struct ComponentArray<T> {
    data: Vec<T>,
    entity_to_index_map: HashMap<u32, usize>,
    index_to_entity_map: HashMap<usize, Entity>,
    length: usize,
    capacity: usize,
}

impl<T> ComponentArray<T> where T: Copy {
    /// The state of the store: the populated slots and their owners. What
    /// the array holds behind the last populated slot is no part of it.
    pub closed spec fn view(&self) -> Packed<T> {
        Packed {
            capacity: self.capacity as nat,
            dense: self.data@.take(self.length as int),
            entities: Seq::new(self.length as nat, |i: int| self.index_to_entity_map@[i as usize]),
        }
    }

    /// The state is well formed, and the two index maps are exact inverses
    /// over the populated slots.
    pub closed spec fn wf(&self) -> bool {
        &&& self.length <= self.data.len()
        &&& self.length <= self.capacity
        &&& forall|i: usize| self.index_to_entity_map@.contains_key(i) <==> i < self.length
        &&& forall|i: usize|
            i < self.length ==> {
                let id = (#[trigger] self.index_to_entity_map@[i]).id;
                self.entity_to_index_map@.contains_key(id) && self.entity_to_index_map@[id] == i
            }
        &&& forall|id: u32| #[trigger]
            self.entity_to_index_map@.contains_key(id) ==> {
                let i = self.entity_to_index_map@[id];
                i < self.length && self.index_to_entity_map@[i] == (Entity { id: id })
            }
    }

    /// A well-formed store has a well-formed state, and an entity has a
    /// slot exactly when the first index map has its identifier.
    proof fn lemma_view(&self)
        requires
            self.wf(),
        ensures
            self@.wf(),
            forall|entity: Entity|
                self@.contains(entity) <==> self.entity_to_index_map@.contains_key(entity.id),
            forall|entity: Entity| #[trigger]
                self@.contains(entity) ==> self@.index_of(entity)
                    == self.entity_to_index_map@[entity.id],
    {
        let view = self@;
        assert forall|i: int, j: int|
            0 <= i < view.entities.len() && 0 <= j < view.entities.len() && i != j implies
            view.entities[i] != view.entities[j] by {
            assert(self.entity_to_index_map@[self.index_to_entity_map@[i as usize].id] == i);
            assert(self.entity_to_index_map@[self.index_to_entity_map@[j as usize].id] == j);
        }
        assert forall|entity: Entity|
            view.contains(entity) <==> self.entity_to_index_map@.contains_key(entity.id) by {
            if view.contains(entity) {
                let i = choose|i: int| 0 <= i < view.entities.len() && view.entities[i] == entity;
                assert(self.index_to_entity_map@[i as usize] == entity);
            }
            if self.entity_to_index_map@.contains_key(entity.id) {
                let i = self.entity_to_index_map@[entity.id];
                assert(view.entities[i as int] == entity);
            }
        }
        view.lemma_index_inverse();
        assert forall|entity: Entity| #[trigger] view.contains(entity) implies view.index_of(entity)
            == self.entity_to_index_map@[entity.id] by {
            let i = self.entity_to_index_map@[entity.id];
            assert(view.entities[i as int] == entity);
        }
    }

    /// An empty store that may hold up to `capacity` values.
    pub fn new(capacity: usize) -> (store: ComponentArray<T>)
        ensures
            store.wf(),
            store@ == Packed::<T>::empty(capacity as nat),
    {
        let store = ComponentArray {
            data: Vec::with_capacity(capacity),
            entity_to_index_map: HashMap::new(),
            index_to_entity_map: HashMap::new(),
            length: 0,
            capacity: capacity,
        };
        assert(store@ =~= Packed::<T>::empty(capacity as nat));
        store
    }

    /// Stores `component` for `entity` in the slot behind the last.
    ///
    /// The entity must not have a value in this store yet, and the store
    /// must not be full.
    pub fn insert(&mut self, entity: Entity, component: T)
        requires
            old(self).wf(),
            !old(self)@.contains(entity),
            old(self)@.len() < old(self)@.capacity,
        ensures
            final(self).wf(),
            final(self)@ == old(self)@.insert(entity, component),
            final(self)@.len() == old(self)@.len() + 1,
            final(self)@.get(entity) == Some(component),
            forall|other: Entity|
                other != entity ==> #[trigger] final(self)@.get(other) == old(self)@.get(other),
    {
        broadcast use vstd::std_specs::hash::group_hash_axioms;

        proof {
            self.lemma_view();
        }
        proof {
            self@.lemma_insert(entity, component);
        }
        let new_index = self.length;
        self.entity_to_index_map.insert(entity.id, new_index);
        self.index_to_entity_map.insert(new_index, entity);
        if new_index < self.data.len() {
            self.data.set(new_index, component);
        } else {
            self.data.push(component);
        }
        self.length += 1;
        proof {
            assert(self@.dense =~= old(self)@.dense.push(component));
            assert(self@.entities =~= old(self)@.entities.push(entity));
            assert(self@ =~= old(self)@.insert(entity, component));
        }
    }

    /// Takes the value of `entity` out of the store and returns it. The
    /// value and owner of the last slot move into the vacated slot, so the
    /// array stays packed; the order of the values is not kept.
    ///
    /// Returns `None`, and changes nothing, when the entity has no value in
    /// this store.
    pub fn remove(&mut self, entity: Entity) -> (removed: Option<T>)
        requires
            old(self).wf(),
        ensures
            final(self).wf(),
            match removed {
                Some(value) => {
                    &&& old(self)@.get(entity) == Some(value)
                    &&& final(self)@ == old(self)@.remove(entity)
                    &&& final(self)@.len() == old(self)@.len() - 1
                    &&& final(self)@.get(entity) == None::<T>
                    &&& forall|other: Entity|
                        other != entity ==> #[trigger] final(self)@.get(other) == old(self)@.get(
                            other,
                        )
                },
                None => {
                    &&& !old(self)@.contains(entity)
                    &&& final(self)@ == old(self)@
                },
            },
    {
        broadcast use vstd::std_specs::hash::group_hash_axioms;

        proof {
            self.lemma_view();
            if self@.contains(entity) {
                self@.lemma_remove(entity);
            }
        }
        let index_of_removed_entity = match self.entity_to_index_map.get(&entity.id) {
            Some(index) => *index,
            None => {
                return None;
            },
        };
        let index_of_last_element = self.length - 1;
        let removed = self.data[index_of_removed_entity];
        let last_value = self.data[index_of_last_element];
        self.data.set(index_of_removed_entity, last_value);

        if index_of_removed_entity != index_of_last_element {
            if let Some(last) = self.index_to_entity_map.get(&index_of_last_element) {
                let entity_of_last_element = *last;
                self.entity_to_index_map.insert(entity_of_last_element.id, index_of_removed_entity);
                self.index_to_entity_map.insert(index_of_removed_entity, entity_of_last_element);
            }
        }
        self.entity_to_index_map.remove(&entity.id);
        self.index_to_entity_map.remove(&index_of_last_element);
        self.length -= 1;
        proof {
            assert(self@.dense =~= old(self)@.remove(entity).dense);
            assert(self@.entities =~= old(self)@.remove(entity).entities);
            assert(self@ =~= old(self)@.remove(entity));
        }
        Some(removed)
    }

    /// The value of `entity`, or `None` when it has none in this store.
    pub fn get(&self, entity: Entity) -> (component: Option<&T>)
        requires
            self.wf(),
        ensures
            match component {
                Some(value) => self@.get(entity) == Some(*value),
                None => self@.get(entity) == None::<T>,
            },
    {
        broadcast use vstd::std_specs::hash::group_hash_axioms;

        proof {
            self.lemma_view();
        }
        match self.entity_to_index_map.get(&entity.id) {
            Some(index) => Some(&self.data[*index]),
            None => None,
        }
    }

    /// The value of `entity`, open to change, or `None` when it has none in
    /// this store. Whatever is written through the reference becomes the
    /// value of `entity`; nothing else changes.
    pub fn get_mut(&mut self, entity: Entity) -> (component: Option<&mut T>)
        requires
            old(self).wf(),
        ensures
            final(self).wf(),
            match component {
                Some(value) => {
                    &&& old(self)@.get(entity) == Some(*value)
                    &&& final(self)@ == old(self)@.replace(entity, *final(value))
                    &&& final(self)@.get(entity) == Some(*final(value))
                    &&& forall|other: Entity|
                        other != entity ==> #[trigger] final(self)@.get(other) == old(self)@.get(
                            other,
                        )
                },
                None => {
                    &&& !old(self)@.contains(entity)
                    &&& final(self)@ == old(self)@
                },
            },
    {
        broadcast use vstd::std_specs::hash::group_hash_axioms;

        proof {
            self.lemma_view();
            assert forall|value: T| self@.contains(entity) implies {
                &&& (#[trigger] self@.replace(entity, value)).get(entity) == Some(value)
                &&& forall|other: Entity|
                    other != entity ==> #[trigger] self@.replace(entity, value).get(other)
                        == self@.get(other)
            } by {
                self@.lemma_replace(entity, value);
            }
        }
        match self.entity_to_index_map.get(&entity.id) {
            Some(index) => {
                let index = *index;
                Some(&mut self.data[index])
            },
            None => None,
        }
    }

    /// Whether `entity` has a value in this store.
    pub fn contains(&self, entity: Entity) -> (present: bool)
        requires
            self.wf(),
        ensures
            present == self@.contains(entity),
    {
        broadcast use vstd::std_specs::hash::group_hash_axioms;

        proof {
            self.lemma_view();
        }
        self.entity_to_index_map.contains_key(&entity.id)
    }

    /// The populated slots in dense order.
    pub fn values(&self) -> (values: &[T])
        requires
            self.wf(),
        ensures
            values@ == self@.dense,
    {
        vstd::slice::slice_subrange(self.data.as_slice(), 0, self.length)
    }

    /// The owner of dense slot `index`, or `None` when the slot is not
    /// populated.
    pub fn entity_at(&self, index: usize) -> (owner: Option<Entity>)
        requires
            self.wf(),
        ensures
            owner == if index < self@.len() {
                Some(self@.entities[index as int])
            } else {
                None
            },
    {
        broadcast use vstd::std_specs::hash::group_hash_axioms;

        match self.index_to_entity_map.get(&index) {
            Some(owner) => Some(*owner),
            None => None,
        }
    }

    /// The number of values in the store.
    pub fn len(&self) -> (len: usize)
        requires
            self.wf(),
        ensures
            len == self@.len(),
    {
        self.length
    }

    /// Whether the store holds no value.
    pub fn is_empty(&self) -> (empty: bool)
        requires
            self.wf(),
        ensures
            empty == (self@.len() == 0),
    {
        self.length == 0
    }

    /// The largest number of values the store may hold.
    pub fn capacity(&self) -> (capacity: usize)
        ensures
            capacity == self@.capacity,
    {
        self.capacity
    }
}

impl<T> ComponentStorage for ComponentArray<T> where T: Copy {
    open spec fn storage_wf(&self) -> bool {
        self.wf()
    }

    open spec fn holds(&self, entity: Entity) -> bool {
        self@.contains(entity)
    }

    /// Removes the value of `entity` if it has one; a second call in a row
    /// finds nothing to remove.
    fn destroy_entity(&mut self, entity: Entity)
        ensures
            final(self)@ == old(self)@.destroy_entity(entity),
            forall|other: Entity|
                other != entity ==> #[trigger] final(self)@.get(other) == old(self)@.get(other),
    {
        broadcast use vstd::std_specs::hash::group_hash_axioms;

        proof {
            self.lemma_view();
            if self@.contains(entity) {
                self@.lemma_remove(entity);
            }
        }
        if self.entity_to_index_map.get(&entity.id).is_some() {
            self.remove(entity);
        }
    }
}

} // verus!
