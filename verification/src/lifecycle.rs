//! The mathematical model of entity lifecycle: a universe of identifiers,
//! the queue of free ones, and a signature per slot.

use crate::entity::Entity;
use vstd::prelude::*;

verus! {

/// The state of an entity manager, as the contracts speak of it.
#[verifier::ext_equal]
pub struct Lifecycle {
    /// The size of the universe: identifiers are the numbers below it.
    pub capacity: nat,
    /// The free identifiers, the one to be issued next in front.
    pub available: Seq<Entity>,
    /// The signature at each slot, as the set of its component type ids.
    pub signatures: Seq<Set<nat>>,
}

/// One call on an entity manager.
pub enum Step {
    /// A creation.
    Create,
    /// The destruction of an entity.
    Destroy(Entity),
    /// The overwriting of an entity's signature.
    Sign(Entity, Set<nat>),
}

/// The number of creations among `steps`.
pub open spec fn creations(steps: Seq<Step>) -> nat
    decreases steps.len(),
{
    if steps.len() == 0 {
        0
    } else {
        creations(steps.drop_last()) + match steps.last() {
            Step::Create => 1nat,
            _ => 0nat,
        }
    }
}

impl Lifecycle {
    /// The state of a new manager: every identifier is free, in rising
    /// order, and every signature is empty.
    pub open spec fn init(capacity: nat) -> Lifecycle {
        Lifecycle {
            capacity: capacity,
            available: Seq::new(capacity, |i: int| Entity { id: i as u32 }),
            signatures: Seq::new(capacity, |i: int| Set::<nat>::empty()),
        }
    }

    /// The free queue holds identifiers of the universe, none of them twice,
    /// and the signature at a free slot is empty.
    pub open spec fn wf(self) -> bool {
        &&& self.capacity <= u32::MAX
        &&& self.signatures.len() == self.capacity
        &&& self.available.no_duplicates()
        &&& forall|i: int|
            0 <= i < self.available.len() ==> (#[trigger] self.available[i])@ < self.capacity
        &&& forall|i: int|
            0 <= i < self.available.len() ==> self.signatures[(
            #[trigger] self.available[i])@ as int] == Set::<nat>::empty()
    }

    /// An entity is live when its identifier lies in the universe and is
    /// not free.
    pub open spec fn is_alive(self, entity: Entity) -> bool {
        entity@ < self.capacity && !self.available.contains(entity)
    }

    /// The set of live entities.
    pub open spec fn live(self) -> Set<Entity> {
        Set::new(|entity: Entity| self.is_alive(entity))
    }

    /// The number of identifiers that are issued and not yet destroyed.
    pub open spec fn living_count(self) -> nat {
        (self.capacity - self.available.len()) as nat
    }

    /// The signature stored for `entity`.
    pub open spec fn signature_of(self, entity: Entity) -> Set<nat>
        recommends
            entity@ < self.capacity,
    {
        self.signatures[entity@ as int]
    }

    /// The entity that the next creation issues.
    pub open spec fn next(self) -> Entity
        recommends
            self.available.len() > 0,
    {
        self.available[0]
    }

    /// The state after a creation: the front of the queue has left it.
    pub open spec fn create(self) -> Lifecycle
        recommends
            self.available.len() > 0,
    {
        Lifecycle { available: self.available.drop_first(), ..self }
    }

    /// The state after `entity` is destroyed: its signature is empty and it
    /// stands at the back of the queue.
    pub open spec fn destroy(self, entity: Entity) -> Lifecycle
        recommends
            self.is_alive(entity),
    {
        Lifecycle {
            available: self.available.push(entity),
            signatures: self.signatures.update(entity@ as int, Set::<nat>::empty()),
            ..self
        }
    }

    /// The state after the signature of `entity` is overwritten.
    pub open spec fn set_signature(self, entity: Entity, signature: Set<nat>) -> Lifecycle
        recommends
            self.is_alive(entity),
    {
        Lifecycle { signatures: self.signatures.update(entity@ as int, signature), ..self }
    }

    /// A universe that fits the identifier type starts out well formed, with
    /// nothing live.
    pub proof fn lemma_init(capacity: nat)
        requires
            capacity <= u32::MAX,
        ensures
            Self::init(capacity).wf(),
            Self::init(capacity).live() == Set::<Entity>::empty(),
            Self::init(capacity).living_count() == 0,
    {
        let m = Self::init(capacity);
        assert forall|entity: Entity| !m.is_alive(entity) by {
            if entity@ < capacity {
                assert(m.available[entity@ as int] == entity);
            }
        }
        assert(m.live() =~= Set::<Entity>::empty());
    }

    /// Creation keeps the state well formed, and what it issues was free
    /// and is live afterwards; no other entity changes sides.
    pub proof fn lemma_create(self)
        requires
            self.wf(),
            self.available.len() > 0,
        ensures
            self.create().wf(),
            !self.is_alive(self.next()),
            self.create().live() == self.live().insert(self.next()),
            self.create().living_count() == self.living_count() + 1,
    {
        let after = self.create();
        self.lemma_live_count();
        assert forall|i: int| 0 <= i < after.available.len() implies (
        #[trigger] after.available[i])@ < after.capacity && after.signatures[after.available[i]@ as int]
            == Set::<nat>::empty() by {
            assert(after.available[i] == self.available[i + 1]);
        }
        assert(self.available.contains(self.next())) by {
            assert(self.available[0] == self.next());
        }
        assert forall|entity: Entity|
            after.is_alive(entity) <==> (self.is_alive(entity) || entity == self.next()) by {
            if entity@ < self.capacity {
                if self.available.contains(entity) && entity != self.next() {
                    let i = choose|i: int|
                        0 <= i < self.available.len() && self.available[i] == entity;
                    assert(after.available[i - 1] == entity);
                }
                if after.available.contains(entity) {
                    let i = choose|i: int|
                        0 <= i < after.available.len() && after.available[i] == entity;
                    assert(self.available[i + 1] == entity);
                }
            }
        }
        assert(after.live() =~= self.live().insert(self.next()));
    }

    /// Destroying a live entity keeps the state well formed and takes
    /// exactly that entity out of the live set.
    pub proof fn lemma_destroy(self, entity: Entity)
        requires
            self.wf(),
            self.is_alive(entity),
        ensures
            self.destroy(entity).wf(),
            self.destroy(entity).live() == self.live().remove(entity),
            self.destroy(entity).living_count() == self.living_count() - 1,
            self.destroy(entity).signature_of(entity) == Set::<nat>::empty(),
            self.destroy(entity).available.last() == entity,
            self.available.len() < self.capacity,
    {
        let after = self.destroy(entity);
        assert forall|i: int| 0 <= i < after.available.len() implies (
        #[trigger] after.available[i])@ < after.capacity && after.signatures[after.available[i]@ as int]
            == Set::<nat>::empty() by {
            if i < self.available.len() {
                assert(after.available[i] == self.available[i]);
            }
        }
        assert forall|other: Entity|
            after.is_alive(other) <==> (self.is_alive(other) && other != entity) by {
            if other@ < self.capacity {
                if self.available.contains(other) {
                    let i = choose|i: int|
                        0 <= i < self.available.len() && self.available[i] == other;
                    assert(after.available[i] == other);
                }
                if other == entity {
                    assert(after.available[self.available.len() as int] == entity);
                }
            }
        }
        assert(after.live() =~= self.live().remove(entity));
        self.lemma_live_count();
        assert(self.live().contains(entity));
    }

    /// Overwriting the signature of a live entity keeps the state well
    /// formed and changes nothing else.
    pub proof fn lemma_set_signature(self, entity: Entity, signature: Set<nat>)
        requires
            self.wf(),
            self.is_alive(entity),
        ensures
            self.set_signature(entity, signature).wf(),
            self.set_signature(entity, signature).live() == self.live(),
            self.set_signature(entity, signature).signature_of(entity) == signature,
            forall|other: Entity|
                other@ < self.capacity && other != entity ==> self.set_signature(
                    entity,
                    signature,
                ).signature_of(other) == self.signature_of(other),
    {
        let after = self.set_signature(entity, signature);
        assert(after.live() =~= self.live());
    }

    /// The live entities are identifiers of the universe, and there are
    /// exactly `living_count` of them.
    pub proof fn lemma_live_count(self)
        requires
            self.wf(),
        ensures
            forall|entity: Entity| self.live().contains(entity) ==> entity@ < self.capacity,
            self.live().finite(),
            self.live().len() == self.living_count(),
            self.available.len() <= self.capacity,
    {
        let universe = Seq::new(self.capacity, |i: int| Entity { id: i as u32 });
        let all = universe.to_set();
        let free = self.available.to_set();
        assert(universe.no_duplicates());
        universe.unique_seq_to_set();
        self.available.unique_seq_to_set();
        assert forall|entity: Entity| free.contains(entity) implies all.contains(entity) by {
            let i = choose|i: int| 0 <= i < self.available.len() && self.available[i] == entity;
            assert(universe[entity@ as int] == entity);
        }
        assert forall|entity: Entity| self.live().contains(entity) <==> all.difference(
            free,
        ).contains(entity) by {
            if entity@ < self.capacity {
                assert(universe[entity@ as int] == entity);
            }
        }
        assert(self.live() =~= all.difference(free));
        vstd::set_lib::lemma_set_difference_len(all, free);
        assert(all.intersect(free) =~= free);
        vstd::set_lib::lemma_len_subset(free, all);
    }

    /// The state after one call. A call that the manager refuses (a
    /// creation when nothing is free, the destruction or signing of an
    /// entity that is not live) leaves the state as it was.
    pub open spec fn step(self, step: Step) -> Lifecycle {
        match step {
            Step::Create => if self.available.len() > 0 {
                self.create()
            } else {
                self
            },
            Step::Destroy(entity) => if self.is_alive(entity) {
                self.destroy(entity)
            } else {
                self
            },
            Step::Sign(entity, signature) => if self.is_alive(entity) {
                self.set_signature(entity, signature)
            } else {
                self
            },
        }
    }

    /// The state after the calls `steps`, made in order.
    pub open spec fn run(self, steps: Seq<Step>) -> Lifecycle
        decreases steps.len(),
    {
        if steps.len() == 0 {
            self
        } else {
            self.run(steps.drop_last()).step(steps.last())
        }
    }

    /// Whatever calls are made, in whatever order, the live entities stay
    /// identifiers of the universe, no identifier is live twice or both
    /// live and free, and the live entities number `living_count`.
    pub proof fn lemma_run(self, steps: Seq<Step>)
        requires
            self.wf(),
        ensures
            self.run(steps).wf(),
            self.run(steps).capacity == self.capacity,
            forall|entity: Entity|
                self.run(steps).live().contains(entity) ==> entity@ < self.capacity,
            forall|entity: Entity|
                entity@ < self.capacity ==> (self.run(steps).live().contains(entity)
                    != self.run(steps).available.contains(entity)),
            self.run(steps).live().finite(),
            self.run(steps).live().len() == self.run(steps).living_count(),
            self.run(steps).living_count() <= self.capacity,
        decreases steps.len(),
    {
        if steps.len() > 0 {
            let before = self.run(steps.drop_last());
            self.lemma_run(steps.drop_last());
            match steps.last() {
                Step::Create => {
                    if before.available.len() > 0 {
                        before.lemma_create();
                    }
                },
                Step::Destroy(entity) => {
                    if before.is_alive(entity) {
                        before.lemma_destroy(entity);
                    }
                },
                Step::Sign(entity, signature) => {
                    if before.is_alive(entity) {
                        before.lemma_set_signature(entity, signature);
                    }
                },
            }
        }
        self.run(steps).lemma_live_count();
    }

    /// Successive creations issue the members of the free queue in the
    /// queue's order: after `count` of them the queue has lost its first
    /// `count` members and nothing else.
    pub proof fn lemma_creations_follow_queue(self, count: nat)
        requires
            self.wf(),
            count <= self.available.len(),
        ensures
            self.run(Seq::new(count, |i: int| Step::Create)).available == self.available.skip(
                count as int,
            ),
            count < self.available.len() ==> self.run(
                Seq::new(count, |i: int| Step::Create),
            ).next() == self.available[count as int],
        decreases count,
    {
        let steps = Seq::new(count, |i: int| Step::Create);
        if count > 0 {
            let shorter = Seq::new((count - 1) as nat, |i: int| Step::Create);
            assert(steps.drop_last() =~= shorter);
            self.lemma_creations_follow_queue((count - 1) as nat);
            assert(self.run(steps).available =~= self.available.skip(count as int));
        } else {
            assert(self.available.skip(0) =~= self.available);
        }
    }

    /// Identifiers are recycled first in, first out. Once a live entity is
    /// destroyed it stays free, whatever calls follow, for as long as no
    /// more creations were made than identifiers were free before it: it
    /// is issued again only after every one of those.
    pub proof fn lemma_fifo(self, entity: Entity, steps: Seq<Step>)
        requires
            self.wf(),
            self.is_alive(entity),
            creations(steps) <= self.available.len(),
        ensures
            !self.destroy(entity).run(steps).is_alive(entity),
            self.destroy(entity).run(steps).signature_of(entity) == Set::<nat>::empty(),
    {
        self.lemma_destroy(entity);
        self.destroy(entity).lemma_stays_queued(entity, self.available.len() as int, steps);
        let after = self.destroy(entity).run(steps);
        self.destroy(entity).lemma_run(steps);
        let i = choose|i: int| 0 <= i < after.available.len() && after.available[i] == entity;
        assert(after.signatures[after.available[i]@ as int] == Set::<nat>::empty());
    }

    /// An entity that stands at place `place` of the free queue is still in
    /// the queue after calls with at most `place` creations among them, no
    /// nearer to the front than the creations brought it.
    proof fn lemma_stays_queued(self, entity: Entity, place: int, steps: Seq<Step>)
        requires
            self.wf(),
            0 <= place < self.available.len(),
            self.available[place] == entity,
            creations(steps) <= place,
        ensures
            self.run(steps).wf(),
            exists|i: int|
                place - creations(steps) <= i < self.run(steps).available.len() && self.run(
                    steps,
                ).available[i] == entity,
        decreases steps.len(),
    {
        if steps.len() > 0 {
            let before = self.run(steps.drop_last());
            self.lemma_stays_queued(entity, place, steps.drop_last());
            self.lemma_run(steps);
            let i = choose|i: int|
                place - creations(steps.drop_last()) <= i < before.available.len()
                    && before.available[i] == entity;
            let after = self.run(steps);
            match steps.last() {
                Step::Create => {
                    assert(i >= 1);
                    assert(after.available[i - 1] == entity);
                },
                Step::Destroy(other) => {
                    assert(after.available[i] == entity);
                },
                Step::Sign(other, signature) => {
                    assert(after.available[i] == entity);
                },
            }
        } else {
            assert(self.run(steps).available[place] == entity);
        }
    }
}

} // verus!
