//! The mathematical model of a packed component store: the dense sequence
//! of values and, slot by slot, the entity that owns each.

use crate::entity::Entity;
use vstd::prelude::*;

verus! {

/// The state of a packed store, as the contracts speak of it.
#[verifier::ext_equal]
pub struct Packed<T> {
    /// The largest number of values the store may hold.
    pub capacity: nat,
    /// The values, without gaps, in dense order.
    pub dense: Seq<T>,
    /// The owner of each dense slot.
    pub entities: Seq<Entity>,
}

impl<T> Packed<T> {
    /// The state of a new store.
    pub open spec fn empty(capacity: nat) -> Packed<T> {
        Packed { capacity: capacity, dense: Seq::<T>::empty(), entities: Seq::<Entity>::empty() }
    }

    /// Every slot has one owner, no entity owns two slots, and the store
    /// is within its capacity.
    pub open spec fn wf(self) -> bool {
        &&& self.dense.len() == self.entities.len()
        &&& self.dense.len() <= self.capacity
        &&& self.entities.no_duplicates()
    }

    /// The number of values held.
    pub open spec fn len(self) -> nat {
        self.dense.len()
    }

    /// Whether `entity` has a value in the store.
    pub open spec fn contains(self, entity: Entity) -> bool {
        self.entities.contains(entity)
    }

    /// The dense slot of `entity`.
    pub open spec fn index_of(self, entity: Entity) -> int
        recommends
            self.contains(entity),
    {
        self.entities.index_of(entity)
    }

    /// The value of `entity`, if it has one.
    pub open spec fn get(self, entity: Entity) -> Option<T> {
        if self.contains(entity) {
            Some(self.dense[self.index_of(entity)])
        } else {
            None
        }
    }

    /// The state after `value` is stored for `entity`: both take the slot
    /// behind the last.
    pub open spec fn insert(self, entity: Entity, value: T) -> Packed<T>
        recommends
            !self.contains(entity),
            self.len() < self.capacity,
    {
        Packed { dense: self.dense.push(value), entities: self.entities.push(entity), ..self }
    }

    /// The state after the value of `entity` is replaced by `value`.
    pub open spec fn replace(self, entity: Entity, value: T) -> Packed<T>
        recommends
            self.contains(entity),
    {
        Packed { dense: self.dense.update(self.index_of(entity), value), ..self }
    }

    /// The state after the value of `entity` is removed: the last slot's
    /// value and owner move into the vacated slot, and the last slot goes.
    pub open spec fn remove(self, entity: Entity) -> Packed<T>
        recommends
            self.contains(entity),
    {
        let slot = self.index_of(entity);
        Packed {
            dense: self.dense.update(slot, self.dense.last()).drop_last(),
            entities: self.entities.update(slot, self.entities.last()).drop_last(),
            ..self
        }
    }

    /// The state after the store is told that `entity` was destroyed: its
    /// value, if it had one, is removed.
    pub open spec fn destroy_entity(self, entity: Entity) -> Packed<T> {
        if self.contains(entity) {
            self.remove(entity)
        } else {
            self
        }
    }

    /// The state after the entities `entities` are given the values
    /// `values`, one after another.
    pub open spec fn insert_all(self, entities: Seq<Entity>, values: Seq<T>) -> Packed<T>
        recommends
            entities.len() == values.len(),
        decreases entities.len(),
    {
        if entities.len() == 0 {
            self
        } else {
            self.insert_all(entities.drop_last(), values.drop_last()).insert(
                entities.last(),
                values.last(),
            )
        }
    }

    /// Slots and owners determine each other: the slot of the owner of slot
    /// `i` is `i`, and the owner of the slot of `entity` is `entity`.
    pub proof fn lemma_index_inverse(self)
        requires
            self.wf(),
        ensures
            forall|i: int|
                0 <= i < self.len() ==> self.contains(#[trigger] self.entities[i])
                    && self.index_of(self.entities[i]) == i,
            forall|entity: Entity| #[trigger]
                self.contains(entity) ==> 0 <= self.index_of(entity) < self.len()
                    && self.entities[self.index_of(entity)] == entity,
    {
        assert forall|i: int| 0 <= i < self.len() implies self.contains(
            #[trigger] self.entities[i],
        ) && self.index_of(self.entities[i]) == i by {
            let j = self.entities.index_of(self.entities[i]);
            assert(0 <= j < self.entities.len() && self.entities[j] == self.entities[i]);
        }
    }

    /// A new store is well formed and holds nothing.
    pub proof fn lemma_empty(capacity: nat)
        ensures
            Self::empty(capacity).wf(),
            Self::empty(capacity).len() == 0,
            forall|entity: Entity| !Self::empty(capacity).contains(entity),
    {
    }

    /// After an insertion the store is one longer, the new value is found
    /// under its entity in the last slot, and every other entity has what
    /// it had.
    pub proof fn lemma_insert(self, entity: Entity, value: T)
        requires
            self.wf(),
            !self.contains(entity),
            self.len() < self.capacity,
        ensures
            self.insert(entity, value).wf(),
            self.insert(entity, value).len() == self.len() + 1,
            self.insert(entity, value).index_of(entity) == self.len(),
            self.insert(entity, value).get(entity) == Some(value),
            forall|other: Entity|
                other != entity ==> (#[trigger] self.insert(entity, value).contains(other)
                    == self.contains(other)),
            forall|other: Entity|
                other != entity ==> (#[trigger] self.insert(entity, value).get(other)
                    == self.get(other)),
            forall|other: Entity|
                self.contains(other) ==> (#[trigger] self.insert(entity, value).index_of(other)
                    == self.index_of(other)),
    {
        let after = self.insert(entity, value);
        assert(after.entities[self.len() as int] == entity);
        assert(after.wf()) by {
            assert forall|i: int, j: int|
                0 <= i < after.entities.len() && 0 <= j < after.entities.len() && i != j implies
                after.entities[i] != after.entities[j] by {
                if i < self.len() {
                    assert(self.entities[i] == after.entities[i]);
                }
                if j < self.len() {
                    assert(self.entities[j] == after.entities[j]);
                }
            }
        }
        after.lemma_index_inverse();
        self.lemma_index_inverse();
        assert forall|other: Entity| other != entity implies (#[trigger] after.contains(other)
            == self.contains(other)) && after.get(other) == self.get(other) by {
            if self.contains(other) {
                let i = self.index_of(other);
                assert(after.entities[i] == other);
            }
            if after.contains(other) {
                let i = after.index_of(other);
                assert(self.entities[i] == other);
            }
        }
        assert forall|other: Entity| self.contains(other) implies (#[trigger] after.index_of(other)
            == self.index_of(other)) by {
            let i = self.index_of(other);
            assert(after.entities[i] == other);
        }
    }

    /// After a replacement the store has the same slots and owners, the
    /// entity has the new value, and every other entity has what it had.
    pub proof fn lemma_replace(self, entity: Entity, value: T)
        requires
            self.wf(),
            self.contains(entity),
        ensures
            self.replace(entity, value).wf(),
            self.replace(entity, value).entities == self.entities,
            self.replace(entity, value).get(entity) == Some(value),
            forall|other: Entity|
                other != entity ==> (#[trigger] self.replace(entity, value).get(other)
                    == self.get(other)),
    {
        self.lemma_index_inverse();
    }

    /// After the value of an entity is removed, whichever slot it had, the
    /// store is one shorter, the entity has no value, and every other
    /// entity has what it had.
    pub proof fn lemma_remove(self, entity: Entity)
        requires
            self.wf(),
            self.contains(entity),
        ensures
            self.remove(entity).wf(),
            self.remove(entity).len() == self.len() - 1,
            !self.remove(entity).contains(entity),
            self.remove(entity).get(entity) == None::<T>,
            forall|other: Entity|
                other != entity ==> (#[trigger] self.remove(entity).contains(other)
                    == self.contains(other)),
            forall|other: Entity|
                other != entity ==> (#[trigger] self.remove(entity).get(other) == self.get(other)),
    {
        let after = self.remove(entity);
        let slot = self.index_of(entity);
        let last = self.len() - 1;
        self.lemma_index_inverse();
        assert forall|i: int| 0 <= i < after.entities.len() implies after.entities[i] == (if i
            == slot {
            self.entities[last]
        } else {
            self.entities[i]
        }) by {}
        assert(after.entities.no_duplicates());
        after.lemma_index_inverse();
        assert(!after.contains(entity)) by {
            if after.contains(entity) {
                let i = after.index_of(entity);
                assert(after.entities[i] == entity);
            }
        }
        assert forall|other: Entity| other != entity implies (#[trigger] after.contains(other)
            == self.contains(other)) && after.get(other) == self.get(other) by {
            if self.contains(other) {
                let i = self.index_of(other);
                if i == last {
                    assert(after.entities[slot] == other);
                } else {
                    assert(after.entities[i] == other);
                }
            }
            if after.contains(other) {
                let i = after.index_of(other);
                if i == slot {
                    assert(self.entities[last] == other);
                } else {
                    assert(self.entities[i] == other);
                }
            }
        }
    }

    /// Telling a store twice in a row that an entity was destroyed leaves it
    /// as telling it once does: the second call finds nothing to remove.
    pub proof fn lemma_destroy_entity_idempotent(self, entity: Entity)
        requires
            self.wf(),
        ensures
            self.destroy_entity(entity).wf(),
            !self.destroy_entity(entity).contains(entity),
            self.destroy_entity(entity).destroy_entity(entity) == self.destroy_entity(entity),
    {
        if self.contains(entity) {
            self.lemma_remove(entity);
        }
    }

    /// An insertion followed at once by the removal of the same entity
    /// leaves the store exactly as it was before: the same slots, the same
    /// owners, and so the same length and the same answer to every lookup.
    pub proof fn lemma_insert_remove(self, entity: Entity, value: T)
        requires
            self.wf(),
            !self.contains(entity),
            self.len() < self.capacity,
        ensures
            self.insert(entity, value).remove(entity) == self,
            self.insert(entity, value).remove(entity).len() == self.len(),
            forall|other: Entity| #[trigger]
                self.insert(entity, value).remove(entity).get(other) == self.get(other),
    {
        self.lemma_insert(entity, value);
        let between = self.insert(entity, value);
        assert(between.index_of(entity) == self.len());
        assert(between.remove(entity).dense =~= self.dense);
        assert(between.remove(entity).entities =~= self.entities);
        assert(between.remove(entity) =~= self);
    }

    /// After the entities `entities`, all different and none of them in the
    /// store yet, are given the values `values` in order, the store is
    /// longer by their number, the new values lie behind the old ones in
    /// the order of insertion, each of the entities has the value that was
    /// inserted for it, and every entity that was in the store before has
    /// what it had.
    pub proof fn lemma_insert_all(self, entities: Seq<Entity>, values: Seq<T>)
        requires
            self.wf(),
            entities.len() == values.len(),
            entities.no_duplicates(),
            forall|i: int| 0 <= i < entities.len() ==> !self.contains(#[trigger] entities[i]),
            self.len() + entities.len() <= self.capacity,
        ensures
            self.insert_all(entities, values).wf(),
            self.insert_all(entities, values).capacity == self.capacity,
            self.insert_all(entities, values).len() == self.len() + entities.len(),
            self.insert_all(entities, values).dense == self.dense + values,
            self.insert_all(entities, values).entities == self.entities + entities,
            forall|i: int|
                0 <= i < entities.len() ==> self.insert_all(entities, values).get(
                    #[trigger] entities[i],
                ) == Some(values[i]),
            forall|other: Entity|
                self.contains(other) ==> #[trigger] self.insert_all(entities, values).get(other)
                    == self.get(other),
        decreases entities.len(),
    {
        if entities.len() > 0 {
            let front = entities.drop_last();
            let front_values = values.drop_last();
            let before = self.insert_all(front, front_values);
            let after = self.insert_all(entities, values);
            assert forall|i: int| 0 <= i < front.len() implies !self.contains(
                #[trigger] front[i],
            ) by {
                assert(front[i] == entities[i]);
            }
            self.lemma_insert_all(front, front_values);
            assert(!before.contains(entities.last())) by {
                if before.contains(entities.last()) {
                    let j = choose|j: int|
                        0 <= j < before.entities.len() && before.entities[j] == entities.last();
                    if j < self.len() {
                        assert(self.entities[j] == entities.last());
                    } else {
                        assert(entities[j - self.len()] == entities.last());
                    }
                }
            }
            before.lemma_insert(entities.last(), values.last());
            assert(after.dense =~= self.dense + values);
            assert(after.entities =~= self.entities + entities);
            assert forall|i: int| 0 <= i < entities.len() implies after.get(
                #[trigger] entities[i],
            ) == Some(values[i]) by {
                if i < front.len() {
                    assert(front[i] == entities[i] && front_values[i] == values[i]);
                    assert(before.get(front[i]) == Some(front_values[i]));
                    assert(entities[i] != entities.last());
                }
            }
            assert forall|other: Entity| self.contains(other) implies #[trigger] after.get(other)
                == self.get(other) by {
                assert(before.get(other) == self.get(other));
                assert(other != entities.last());
            }
        } else {
            assert(self.dense + values =~= self.dense);
            assert(self.entities + entities =~= self.entities);
        }
    }
}

} // verus!
