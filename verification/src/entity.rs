//! Entity handles and the manager that issues and recycles them.

use crate::lifecycle::Lifecycle;
use crate::lifecycle::Step;
use crate::signature::Signature;
use std::collections::VecDeque;
use vstd::prelude::*;

verus! {

/// Integer type of an entity's slot key.
pub type Index = u32;

/// An opaque handle for one logical object: a slot key into a fixed-size
/// universe of identifiers.
///
/// The handle carries no generation: once an id has been recycled, an old
/// copy of the handle denotes whichever entity holds the id now.
#[derive(Copy, Clone, Debug, PartialEq, Eq, Hash, Structural)]
pub struct Entity {
    /// The slot key.
    pub id: Index,
}

/// Name under which code that speaks of identifiers refers to [`Entity`].
pub type EntityID = Entity;

impl Entity {
    /// The slot key of this handle as a mathematical integer.
    pub open spec fn view(&self) -> nat {
        self.id as nat
    }

    /// The handle whose slot key is `id`.
    #[inline]
    pub fn new(id: Index) -> (entity: Entity)
        ensures
            entity@ == id,
    {
        Entity { id: id }
    }

    /// The slot key of this handle.
    #[inline]
    pub fn id(&self) -> (id: Index)
        ensures
            id == self@,
    {
        self.id
    }
}

/// Why an operation of the entity manager was refused.
#[derive(Copy, Clone, Debug, PartialEq, Eq, Structural)]
pub enum EntityError {
    /// Every identifier of the universe is live: none is left to issue.
    CapacityExhausted,
    /// The identifier lies in the universe but is free: the entity was
    /// destroyed, or never created.
    NotAlive,
    /// The identifier does not lie in the universe.
    OutOfRange,
}

/// Owns the universe of entity identifiers: issues them, takes them back
/// for reuse in the order in which they were freed, and keeps the signature
/// of each.
pub struct EntityManager {
    available_entities: VecDeque<Entity>,
    signatures: Vec<Signature>,
    living: Vec<bool>,
    living_entity_count: usize,
    living_entity_capacity: usize,
}

impl EntityManager {
    /// The state of the manager.
    pub closed spec fn view(&self) -> Lifecycle {
        Lifecycle {
            capacity: self.living_entity_capacity as nat,
            available: self.available_entities@,
            signatures: Seq::new(self.signatures.len() as nat, |i: int| self.signatures[i]@),
        }
    }

    /// The state is well formed, and the manager's bookkeeping agrees with
    /// it.
    pub closed spec fn wf(&self) -> bool {
        &&& self@.wf()
        &&& self.signatures.len() == self.living_entity_capacity
        &&& self.living.len() == self.living_entity_capacity
        &&& self.living_entity_count == self@.living_count()
        &&& forall|i: int| 0 <= i < self.signatures.len() ==> (#[trigger] self.signatures[i]).wf()
        &&& forall|i: int|
            0 <= i < self.living.len() ==> #[trigger] self.living[i] == self@.is_alive(
                Entity { id: i as u32 },
            )
    }

    /// A manager over the identifiers `0..capacity`, all of them free and
    /// queued in rising order, with every signature empty.
    pub fn new(capacity: usize) -> (manager: EntityManager)
        requires
            capacity <= u32::MAX,
        ensures
            manager.wf(),
            manager@ == Lifecycle::init(capacity as nat),
    {
        let mut available_entities: VecDeque<Entity> = VecDeque::with_capacity(capacity);
        let mut signatures: Vec<Signature> = Vec::with_capacity(capacity);
        let mut living: Vec<bool> = Vec::with_capacity(capacity);
        let mut entity_id: usize = 0;
        while entity_id < capacity
            invariant
                entity_id <= capacity <= u32::MAX,
                available_entities@ == Seq::new(entity_id as nat, |i: int| Entity { id: i as u32 }),
                signatures.len() == entity_id,
                living.len() == entity_id,
                forall|i: int|
                    0 <= i < entity_id ==> (#[trigger] signatures[i]).wf() && signatures[i]@
                        == Set::<nat>::empty(),
                forall|i: int| 0 <= i < entity_id ==> !(#[trigger] living[i]),
            decreases capacity - entity_id,
        {
            available_entities.push_back(Entity::new(entity_id as u32));
            signatures.push(Signature::empty());
            living.push(false);
            entity_id += 1;
            assert(available_entities@ =~= Seq::new(
                entity_id as nat,
                |i: int| Entity { id: i as u32 },
            ));
        }
        let manager = EntityManager {
            available_entities: available_entities,
            signatures: signatures,
            living: living,
            living_entity_count: 0,
            living_entity_capacity: capacity,
        };
        proof {
            Lifecycle::lemma_init(capacity as nat);
            assert(manager@ =~= Lifecycle::init(capacity as nat));
            assert forall|i: int| 0 <= i < manager.living.len() implies #[trigger] manager.living[i]
                == manager@.is_alive(Entity { id: i as u32 }) by {
                assert(!manager@.live().contains(Entity { id: i as u32 }));
            }
        }
        manager
    }

    /// Issues the identifier at the front of the free queue.
    ///
    /// Fails with `CapacityExhausted`, and changes nothing, when no
    /// identifier is free.
    pub fn create_entity(&mut self) -> (result: Result<Entity, EntityError>)
        requires
            old(self).wf(),
        ensures
            final(self).wf(),
            final(self)@ == old(self)@.step(Step::Create),
            match result {
                Ok(entity) => {
                    &&& old(self)@.available.len() > 0
                    &&& entity == old(self)@.next()
                    &&& final(self)@ == old(self)@.create()
                    &&& !old(self)@.is_alive(entity)
                    &&& final(self)@.is_alive(entity)
                    &&& final(self)@.living_count() == old(self)@.living_count() + 1
                },
                Err(error) => {
                    &&& old(self)@.available.len() == 0
                    &&& old(self)@.living_count() == old(self)@.capacity
                    &&& error == EntityError::CapacityExhausted
                    &&& final(self)@ == old(self)@
                },
            },
    {
        proof {
            self@.lemma_live_count();
        }
        match self.available_entities.pop_front() {
            None => Err(EntityError::CapacityExhausted),
            Some(entity) => {
                proof {
                    old(self)@.lemma_create();
                    assert(old(self)@.available[0] == entity);
                }
                self.living.set(entity.id as usize, true);
                self.living_entity_count += 1;
                proof {
                    assert(self@ =~= old(self)@.create());
                    assert forall|i: int| 0 <= i < self.living.len() implies #[trigger] self.living[i]
                        == self@.is_alive(Entity { id: i as u32 }) by {
                        assert(old(self).living[i] == old(self)@.is_alive(Entity { id: i as u32 }));
                        assert(self@.live().contains(Entity { id: i as u32 }) == self@.is_alive(
                            Entity { id: i as u32 },
                        ));
                        assert(old(self)@.live().contains(Entity { id: i as u32 }) == old(
                            self,
                        )@.is_alive(Entity { id: i as u32 }));
                    }
                }
                Ok(entity)
            },
        }
    }

    /// Retires a live entity: clears its signature and puts its identifier
    /// at the back of the free queue.
    ///
    /// Fails, and changes nothing, with `OutOfRange` when the identifier
    /// does not lie in the universe and with `NotAlive` when it is free
    /// already.
    pub fn destroy_entity(&mut self, entity: Entity) -> (result: Result<(), EntityError>)
        requires
            old(self).wf(),
        ensures
            final(self).wf(),
            final(self)@ == old(self)@.step(Step::Destroy(entity)),
            match result {
                Ok(_) => {
                    &&& old(self)@.is_alive(entity)
                    &&& final(self)@ == old(self)@.destroy(entity)
                    &&& !final(self)@.is_alive(entity)
                    &&& final(self)@.signature_of(entity) == Set::<nat>::empty()
                    &&& final(self)@.living_count() == old(self)@.living_count() - 1
                },
                Err(error) => {
                    &&& !old(self)@.is_alive(entity)
                    &&& error == if entity@ < old(self)@.capacity {
                        EntityError::NotAlive
                    } else {
                        EntityError::OutOfRange
                    }
                    &&& final(self)@ == old(self)@
                },
            },
    {
        let slot = entity.id as usize;
        if slot >= self.living_entity_capacity {
            return Err(EntityError::OutOfRange);
        }
        if !self.living[slot] {
            return Err(EntityError::NotAlive);
        }
        proof {
            assert(entity == Entity { id: slot as u32 });
            old(self)@.lemma_destroy(entity);
        }
        self.signatures[slot].clear();
        self.available_entities.push_back(entity);
        self.living.set(slot, false);
        self.living_entity_count -= 1;
        proof {
            assert(self@ =~= old(self)@.destroy(entity));
            assert forall|i: int| 0 <= i < self.living.len() implies #[trigger] self.living[i]
                == self@.is_alive(Entity { id: i as u32 }) by {
                assert(old(self).living[i] == old(self)@.is_alive(Entity { id: i as u32 }));
                assert(self@.live().contains(Entity { id: i as u32 }) == self@.is_alive(
                    Entity { id: i as u32 },
                ));
                assert(old(self)@.live().contains(Entity { id: i as u32 }) == old(self)@.is_alive(
                    Entity { id: i as u32 },
                ));
            }
        }
        Ok(())
    }

    /// Overwrites the signature of a live entity with `signature`.
    ///
    /// Fails, and changes nothing, with `OutOfRange` when the identifier
    /// does not lie in the universe and with `NotAlive` when it is free.
    pub fn set_signature(&mut self, entity: Entity, signature: Signature) -> (result: Result<
        (),
        EntityError,
    >)
        requires
            old(self).wf(),
            signature.wf(),
        ensures
            final(self).wf(),
            final(self)@ == old(self)@.step(Step::Sign(entity, signature@)),
            match result {
                Ok(_) => {
                    &&& old(self)@.is_alive(entity)
                    &&& final(self)@ == old(self)@.set_signature(entity, signature@)
                    &&& final(self)@.signature_of(entity) == signature@
                },
                Err(error) => {
                    &&& !old(self)@.is_alive(entity)
                    &&& error == if entity@ < old(self)@.capacity {
                        EntityError::NotAlive
                    } else {
                        EntityError::OutOfRange
                    }
                    &&& final(self)@ == old(self)@
                },
            },
    {
        let slot = entity.id as usize;
        if slot >= self.living_entity_capacity {
            return Err(EntityError::OutOfRange);
        }
        if !self.living[slot] {
            return Err(EntityError::NotAlive);
        }
        proof {
            assert(entity == Entity { id: slot as u32 });
            old(self)@.lemma_set_signature(entity, signature@);
        }
        self.signatures.set(slot, signature);
        proof {
            assert(self@ =~= old(self)@.set_signature(entity, signature@));
        }
        Ok(())
    }

    /// A copy of the signature stored for `entity`; it is empty when the
    /// entity is not live.
    ///
    /// Fails with `OutOfRange` when the identifier does not lie in the
    /// universe.
    pub fn get_signature(&self, entity: Entity) -> (result: Result<Signature, EntityError>)
        requires
            self.wf(),
        ensures
            match result {
                Ok(signature) => {
                    &&& entity@ < self@.capacity
                    &&& signature.wf()
                    &&& signature@ == self@.signature_of(entity)
                    &&& !self@.is_alive(entity) ==> signature@ == Set::<nat>::empty()
                },
                Err(error) => {
                    &&& entity@ >= self@.capacity
                    &&& error == EntityError::OutOfRange
                },
            },
    {
        let slot = entity.id as usize;
        if slot >= self.living_entity_capacity {
            return Err(EntityError::OutOfRange);
        }
        proof {
            if !self@.is_alive(entity) {
                let i = choose|i: int|
                    0 <= i < self@.available.len() && self@.available[i] == entity;
                assert(self@.signatures[self@.available[i]@ as int] == Set::<nat>::empty());
            }
        }
        Ok(self.signatures[slot].clone())
    }

    /// Whether `entity` is live: its identifier lies in the universe and is
    /// not in the free queue.
    pub fn is_alive(&self, entity: Entity) -> (alive: bool)
        requires
            self.wf(),
        ensures
            alive == self@.is_alive(entity),
    {
        let slot = entity.id as usize;
        proof {
            assert(entity == Entity { id: slot as u32 });
        }
        slot < self.living_entity_capacity && self.living[slot]
    }

    /// The number of live entities.
    pub fn living_count(&self) -> (count: usize)
        requires
            self.wf(),
        ensures
            count == self@.living_count(),
            count == self@.live().len(),
    {
        proof {
            self@.lemma_live_count();
        }
        self.living_entity_count
    }

    /// The size of the universe.
    pub fn capacity(&self) -> (capacity: usize)
        ensures
            capacity == self@.capacity,
    {
        self.living_entity_capacity
    }
}

} // verus!
