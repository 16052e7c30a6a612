//! Generational entity allocation with per-entity component storage and one resource slot.
//!
//! A `World<C, R>` stores components of type `C` (an enum covers several component kinds)
//! and at most one resource of type `R`.
use crate::text::{decimal_text, u32_text};
use vstd::prelude::*;

verus! {

/// Stable generational identifier for an entity in a [`World`].
#[derive(Clone, Copy, Debug, PartialEq, Eq, Structural, Hash)]
pub struct Entity {
    index: u32,
    generation: u32,
}

impl Entity {
    /// Slot index of this handle.
    pub closed spec fn idx(self) -> u32 {
        self.index
    }

    /// Generation of this handle.
    pub closed spec fn gen(self) -> u32 {
        self.generation
    }

    /// Handles are equal exactly when their index and generation are equal.
    pub proof fn lemma_eq_by_parts(a: Entity, b: Entity)
        ensures
            (a == b) <==> (a.idx() == b.idx() && a.gen() == b.gen()),
    {
    }

    pub fn from_raw_parts(index: u32, generation: u32) -> (e: Self)
        ensures
            e.idx() == index,
            e.gen() == generation,
    {
        Entity { index, generation }
    }

    pub fn from_raw(index: u32) -> (e: Self)
        ensures
            e.idx() == index,
            e.gen() == 1,
    {
        Entity { index, generation: 1 }
    }

    pub fn index(self) -> (r: u32)
        ensures
            r == self.idx(),
    {
        self.index
    }

    pub fn generation(self) -> (r: u32)
        ensures
            r == self.gen(),
    {
        self.generation
    }

    /// Human-readable form `Entity(index:generation)`.
    pub fn describe(self) -> (s: String)
        ensures
            s@ == "Entity("@ + decimal_text(self.idx() as nat) + ":"@ + decimal_text(self.gen() as nat) + ")"@,
    {
        let mut text = String::from_str("Entity(");
        text.append(u32_text(self.index).as_str());
        text.append(":");
        text.append(u32_text(self.generation).as_str());
        text.append(")");
        text
    }
}

#[derive(Clone, Copy, Debug)]
struct EntitySlot {
    generation: u32,
    alive: bool,
    retired: bool,
}

#[derive(Clone, Copy, Debug, PartialEq, Eq, Structural)]
pub enum WorldError {
    EntityNotFound(Entity),
    EntityCapacityExhausted,
}

impl WorldError {
    /// Stable user-facing message.
    pub fn message(&self) -> (s: String)
        ensures
            s@ == match *self {
                WorldError::EntityNotFound(e) => "Entity("@ + decimal_text(e.idx() as nat) + ":"@
                    + decimal_text(e.gen() as nat) + ")"@ + " does not exist"@,
                WorldError::EntityCapacityExhausted => "entity index capacity is exhausted"@,
            },
    {
        match self {
            WorldError::EntityNotFound(entity) => {
                let mut text = entity.describe();
                text.append(" does not exist");
                text
            },
            WorldError::EntityCapacityExhausted => String::from_str(
                "entity index capacity is exhausted",
            ),
        }
    }
}

/// Number of alive slots in a slot sequence.
spec fn count_alive(s: Seq<EntitySlot>) -> nat
    decreases s.len(),
{
    if s.len() == 0 {
        0
    } else {
        count_alive(s.drop_last()) + if s.last().alive { 1nat } else { 0nat }
    }
}

/// Number of `Some` entries in a sequence.
pub open spec fn count_some<C>(s: Seq<Option<C>>) -> nat
    decreases s.len(),
{
    if s.len() == 0 {
        0
    } else {
        count_some(s.drop_last()) + if s.last() is Some { 1nat } else { 0nat }
    }
}

/// The largest number of slots a world can index with `u32` handles.
pub open spec fn max_slots() -> nat {
    u32::MAX as nat + 1
}

/// Entity slots with a free list, per-entity components and one resource.
pub struct World<C, R> {
    slots: Vec<EntitySlot>,
    free_list: Vec<u32>,
    components: Vec<Option<C>>,
    component_total: usize,
    resource: Option<R>,
    retired_handles: Ghost<Set<Entity>>,
}

impl<C, R> World<C, R> {
    /// Whether `entity` names a live entity of this world.
    pub closed spec fn live(&self, entity: Entity) -> bool {
        &&& (entity.index as int) < self.slots@.len()
        &&& self.slots@[entity.index as int].alive
        &&& !self.slots@[entity.index as int].retired
        &&& self.slots@[entity.index as int].generation == entity.generation
    }

    /// Components of live entities.
    pub closed spec fn component_map(&self) -> Map<Entity, C> {
        Map::new(
            |e: Entity| self.live(e) && self.components@[e.index as int] is Some,
            |e: Entity| self.components@[e.index as int]->Some_0,
        )
    }

    /// The stored resource, if any.
    pub closed spec fn resource_spec(&self) -> Option<R> {
        self.resource
    }

    /// Every handle that was ever despawned from this world.
    pub closed spec fn despawned(&self) -> Set<Entity> {
        self.retired_handles@
    }

    /// Number of slots ever allocated.
    pub closed spec fn slot_count(&self) -> nat {
        self.slots@.len()
    }

    /// Slot indices waiting for reuse; the last one is reused first.
    pub closed spec fn free_indices(&self) -> Seq<u32> {
        self.free_list@
    }

    /// Current generation of slot `index`.
    pub closed spec fn slot_generation(&self, index: int) -> u32 {
        self.slots@[index].generation
    }

    /// Whether slot `index` has exhausted its generations and is never reused.
    pub closed spec fn retired_index(&self, index: int) -> bool {
        0 <= index < self.slots@.len() && self.slots@[index].retired
    }

    /// A live entity carries its slot's current generation, and its slot is not free.
    pub proof fn lemma_live_generation(&self, entity: Entity)
        requires
            self.wf(),
            self.live(entity),
        ensures
            entity.idx() < self.slot_count(),
            entity.gen() == self.slot_generation(entity.idx() as int),
            !self.free_indices().contains(entity.idx()),
            !self.retired_index(entity.idx() as int),
    {
        if self.free_indices().contains(entity.idx()) {
            let k = choose|k: int| 0 <= k < self.free_list@.len() && self.free_list@[k] == entity.index;
            assert(!self.slots@[self.free_list@[k] as int].alive);
        }
    }

    /// A retired slot is never on the free list.
    pub proof fn lemma_retired_not_free(&self, index: int)
        requires
            self.wf(),
            self.retired_index(index),
        ensures
            index < self.slot_count(),
            forall|k: int| 0 <= k < self.free_indices().len() ==> self.free_indices()[k] as int != index,
    {
        assert forall|k: int| 0 <= k < self.free_indices().len() implies self.free_indices()[k] as int != index by {
            assert(!self.slots@[self.free_list@[k] as int].retired);
        }
    }

    /// Number of alive entities.
    pub closed spec fn alive_count(&self) -> nat {
        count_alive(self.slots@)
    }

    /// Number of stored components.
    pub closed spec fn component_total_spec(&self) -> nat {
        count_some(self.components@)
    }

    /// Whether a new entity can be allocated.
    pub open spec fn can_spawn(&self) -> bool {
        self.free_indices().len() > 0 || self.slot_count() < max_slots()
    }

    /// Internal consistency of slots, free list and component column.
    pub closed spec fn wf(&self) -> bool {
        &&& self.components@.len() == self.slots@.len()
        &&& self.slots@.len() <= max_slots()
        &&& self.component_total as nat == count_some(self.components@)
        &&& forall|i: int| 0 <= i < self.slots@.len() && (#[trigger] self.slots@[i]).alive ==> !self.slots@[i].retired
        &&& forall|i: int|
            0 <= i < self.components@.len() && (#[trigger] self.components@[i]) is Some ==> {
                &&& self.slots@[i].alive
                &&& !self.slots@[i].retired
            }
        &&& forall|k: int|
            0 <= k < self.free_list@.len() ==> {
                &&& (#[trigger] self.free_list@[k] as int) < self.slots@.len()
                &&& !self.slots@[self.free_list@[k] as int].alive
                &&& !self.slots@[self.free_list@[k] as int].retired
            }
        &&& forall|k1: int, k2: int|
            0 <= k1 < k2 < self.free_list@.len() ==> #[trigger] self.free_list@[k1]
                != #[trigger] self.free_list@[k2]
        &&& forall|e: Entity|
            #[trigger] self.retired_handles@.contains(e) ==> {
                &&& (e.index as int) < self.slots@.len()
                &&& (self.slots@[e.index as int].retired || e.generation
                    < self.slots@[e.index as int].generation)
            }
    }

    /// Where a spawn into `self` puts `e` in `next`: the most recently freed slot at its
    /// current generation, otherwise a new slot at generation 1.
    pub open spec fn spawned_at(&self, next: &Self, e: Entity) -> bool {
        &&& !self.retired_index(e.idx() as int)
        &&& forall|i: int| #[trigger] next.retired_index(i) == self.retired_index(i)
        &&& if self.free_indices().len() > 0 {
            &&& e.idx() == self.free_indices().last()
            &&& e.gen() == self.slot_generation(e.idx() as int)
            &&& next.free_indices() == self.free_indices().drop_last()
            &&& next.slot_count() == self.slot_count()
        } else {
            &&& e.idx() == self.slot_count()
            &&& e.gen() == 1
            &&& next.free_indices() == self.free_indices()
            &&& next.slot_count() == self.slot_count() + 1
        }
    }

    /// The live entities.
    pub open spec fn live_entities(&self) -> Set<Entity> {
        Set::new(|e: Entity| self.live(e))
    }

    /// Live entities whose index is below `n`.
    closed spec fn live_below(&self, n: int) -> Set<Entity> {
        Set::new(|e: Entity| self.live(e) && (e.index as int) < n)
    }

    /// Entities with a component whose index is below `n`.
    closed spec fn stored_below(&self, n: int) -> Set<Entity> {
        Set::new(|e: Entity| self.component_map().contains_key(e) && (e.index as int) < n)
    }

    proof fn lemma_live_below(&self, n: int)
        requires
            self.wf(),
            0 <= n <= self.slots@.len(),
        ensures
            self.live_below(n).finite(),
            self.live_below(n).len() == count_alive(self.slots@.take(n)),
        decreases n,
    {
        if n == 0 {
            assert(self.live_below(0) =~= Set::<Entity>::empty());
            assert(self.slots@.take(0) =~= Seq::<EntitySlot>::empty());
        } else {
            self.lemma_live_below(n - 1);
            assert(self.slots@.take(n).drop_last() =~= self.slots@.take(n - 1));
            let slot = self.slots@[n - 1];
            let e = Entity { index: (n - 1) as u32, generation: slot.generation };
            if slot.alive {
                assert(self.live_below(n) =~= self.live_below(n - 1).insert(e));
                assert(!self.live_below(n - 1).contains(e));
            } else {
                assert(self.live_below(n) =~= self.live_below(n - 1));
            }
        }
    }

    proof fn lemma_stored_below(&self, n: int)
        requires
            self.wf(),
            0 <= n <= self.slots@.len(),
        ensures
            self.stored_below(n).finite(),
            self.stored_below(n).len() == count_some(self.components@.take(n)),
        decreases n,
    {
        if n == 0 {
            assert(self.stored_below(0) =~= Set::<Entity>::empty());
            assert(self.components@.take(0) =~= Seq::<Option<C>>::empty());
        } else {
            self.lemma_stored_below(n - 1);
            assert(self.components@.take(n).drop_last() =~= self.components@.take(n - 1));
            let slot = self.slots@[n - 1];
            let e = Entity { index: (n - 1) as u32, generation: slot.generation };
            if self.components@[n - 1] is Some {
                assert(self.live(e));
                assert(self.stored_below(n) =~= self.stored_below(n - 1).insert(e));
                assert(!self.stored_below(n - 1).contains(e));
            } else {
                assert(self.stored_below(n) =~= self.stored_below(n - 1));
            }
        }
    }

    /// The entity count is the number of live entities, and the component count the number
    /// of entities with a component.
    pub proof fn lemma_counts(&self)
        requires
            self.wf(),
        ensures
            self.live_entities().finite(),
            self.alive_count() == self.live_entities().len(),
            self.component_map().dom().finite(),
            self.component_total_spec() == self.component_map().len(),
    {
        self.lemma_live_below(self.slots@.len() as int);
        self.lemma_stored_below(self.slots@.len() as int);
        assert(self.slots@.take(self.slots@.len() as int) =~= self.slots@);
        assert(self.components@.take(self.slots@.len() as int) =~= self.components@);
        assert(self.live_below(self.slots@.len() as int) =~= self.live_entities());
        assert(self.stored_below(self.slots@.len() as int) =~= self.component_map().dom());
    }

    /// A despawned handle is never live again: no sequence of calls can revive it,
    /// because every operation keeps `despawned()` growing and this world well formed.
    pub proof fn lemma_despawned_never_live(&self, entity: Entity)
        requires
            self.wf(),
            self.despawned().contains(entity),
        ensures
            !self.live(entity),
    {
    }

    /// Components only belong to live entities.
    pub proof fn lemma_components_only_for_live(&self, entity: Entity)
        requires
            self.wf(),
            self.component_map().contains_key(entity),
        ensures
            self.live(entity),
    {
    }

    pub fn new() -> (w: Self)
        ensures
            w.wf(),
            w.slot_count() == 0,
            w.free_indices().len() == 0,
            w.component_map() == Map::<Entity, C>::empty(),
            w.resource_spec() is None,
            w.despawned() == Set::<Entity>::empty(),
            forall|e: Entity| !w.live(e),
            w.live_entities() == Set::<Entity>::empty(),
    {
        let w = World {
            slots: Vec::new(),
            free_list: Vec::new(),
            components: Vec::new(),
            component_total: 0,
            resource: None,
            retired_handles: Ghost(Set::empty()),
        };
        assert(w.component_map() =~= Map::<Entity, C>::empty());
        assert(w.live_entities() =~= Set::<Entity>::empty());
        w
    }

    /// Fallible spawn path for code that must handle resource exhaustion without panicking.
    ///
    /// Reuses the most recently freed slot with its current generation, otherwise appends
    /// a slot with generation 1.
    pub fn try_spawn_empty(&mut self) -> (r: Result<Entity, WorldError>)
        requires
            old(self).wf(),
        ensures
            final(self).wf(),
            final(self).despawned() == old(self).despawned(),
            final(self).resource_spec() == old(self).resource_spec(),
            final(self).component_map() == old(self).component_map(),
            r is Err <==> !old(self).can_spawn(),
            r is Err ==> r == Err::<Entity, WorldError>(WorldError::EntityCapacityExhausted)
                && *final(self) == *old(self),
            r matches Ok(e) ==> {
                &&& !old(self).live(e)
                &&& final(self).live(e)
                &&& !final(self).despawned().contains(e)
                &&& forall|x: Entity| x != e ==> (final(self).live(x) <==> old(self).live(x))
                &&& old(self).spawned_at(&*final(self), e)
                &&& final(self).live_entities() == old(self).live_entities().insert(e)
                &&& final(self).live_entities().len() == old(self).live_entities().len() + 1
            },
    {
        let ghost old_map = self.component_map();
        if self.free_list.len() == 0 && self.slots.len() as u64 > u32::MAX as u64 {
            return Err(WorldError::EntityCapacityExhausted);
        }
        match self.free_list.pop() {
            Some(index) => {
                let ghost k = self.free_list@.len() as int;
                assert(old(self).free_list@[k] == index);
                let slot = self.slots[index as usize];
                let updated = EntitySlot { generation: slot.generation, alive: true, retired: false };
                self.slots.set(index as usize, updated);
                let entity = Entity { index, generation: slot.generation };
                proof {
                    assert forall|j: int| 0 <= j < self.free_list@.len() implies
                        self.free_list@[j] != index by {
                        assert(old(self).free_list@[j] == self.free_list@[j]);
                    }
                    assert(self.component_map() =~= old_map);
                    assert(self.live_entities() =~= old(self).live_entities().insert(entity));
                    old(self).lemma_counts();
                }
                Ok(entity)
            },
            None => {
                let index = self.slots.len() as u32;
                self.slots.push(EntitySlot { generation: 1, alive: true, retired: false });
                self.components.push(None);
                proof {
                    assert(self.components@.drop_last() =~= old(self).components@);
                    assert(self.component_map() =~= old_map);
                    assert(self.live_entities() =~= old(self).live_entities().insert(Entity { index, generation: 1 }));
                    old(self).lemma_counts();
                }
                Ok(Entity { index, generation: 1 })
            },
        }
    }

    /// Appends a fresh slot whose first generation is `generation`, bypassing slot reuse.
    ///
    /// This restores a world in which a slot has already lived through earlier
    /// generations, for example one replayed from a saved session.
    pub fn spawn_empty_at_generation(&mut self, generation: u32) -> (r: Result<Entity, WorldError>)
        requires
            old(self).wf(),
        ensures
            final(self).wf(),
            final(self).despawned() == old(self).despawned(),
            final(self).resource_spec() == old(self).resource_spec(),
            final(self).component_map() == old(self).component_map(),
            final(self).free_indices() == old(self).free_indices(),
            r is Err <==> old(self).slot_count() >= max_slots(),
            r is Err ==> r == Err::<Entity, WorldError>(WorldError::EntityCapacityExhausted)
                && *final(self) == *old(self),
            r matches Ok(e) ==> {
                &&& e.idx() == old(self).slot_count()
                &&& e.gen() == generation
                &&& final(self).slot_count() == old(self).slot_count() + 1
                &&& final(self).live(e)
                &&& !final(self).despawned().contains(e)
                &&& forall|x: Entity| x != e ==> (final(self).live(x) <==> old(self).live(x))
            },
    {
        let ghost old_map = self.component_map();
        if self.slots.len() as u64 > u32::MAX as u64 {
            return Err(WorldError::EntityCapacityExhausted);
        }
        let index = self.slots.len() as u32;
        self.slots.push(EntitySlot { generation, alive: true, retired: false });
        self.components.push(None);
        proof {
            assert(self.components@.drop_last() =~= old(self).components@);
            assert(self.component_map() =~= old_map);
        }
        Ok(Entity { index, generation })
    }

    /// Convenience spawn for callers that know a slot is available.
    pub fn spawn_empty(&mut self) -> (e: Entity)
        requires
            old(self).wf(),
            old(self).can_spawn(),
        ensures
            final(self).wf(),
            final(self).despawned() == old(self).despawned(),
            final(self).resource_spec() == old(self).resource_spec(),
            final(self).component_map() == old(self).component_map(),
            !old(self).live(e),
            final(self).live(e),
            forall|x: Entity| x != e ==> (final(self).live(x) <==> old(self).live(x)),
            old(self).spawned_at(&*final(self), e),
            final(self).live_entities() == old(self).live_entities().insert(e),
            final(self).live_entities().len() == old(self).live_entities().len() + 1,
    {
        match self.try_spawn_empty() {
            Ok(e) => e,
            Err(_) => {
                assert(false);
                Entity { index: 0, generation: 0 }
            },
        }
    }

    pub fn try_spawn(&mut self, component: C) -> (r: Result<Entity, WorldError>)
        requires
            old(self).wf(),
        ensures
            final(self).wf(),
            final(self).despawned() == old(self).despawned(),
            final(self).resource_spec() == old(self).resource_spec(),
            r is Err <==> !old(self).can_spawn(),
            r is Err ==> r == Err::<Entity, WorldError>(WorldError::EntityCapacityExhausted)
                && *final(self) == *old(self),
            r matches Ok(e) ==> {
                &&& !old(self).live(e)
                &&& final(self).live(e)
                &&& forall|x: Entity| x != e ==> (final(self).live(x) <==> old(self).live(x))
                &&& final(self).component_map() == old(self).component_map().insert(e, component)
                &&& old(self).spawned_at(&*final(self), e)
                &&& final(self).live_entities() == old(self).live_entities().insert(e)
                &&& final(self).live_entities().len() == old(self).live_entities().len() + 1
                &&& final(self).component_map().len() == old(self).component_map().len() + 1
            },
    {
        let entity = match self.try_spawn_empty() {
            Ok(e) => e,
            Err(e) => return Err(e),
        };
        let ghost mid = self.component_map();
        let previous = self.insert(entity, component);
        proof {
            assert(!mid.contains_key(entity));
            old(self).lemma_counts();
            self.lemma_counts();
            assert(self.live_entities() =~= old(self).live_entities().insert(entity));
        }
        Ok(entity)
    }

    pub fn spawn(&mut self, component: C) -> (e: Entity)
        requires
            old(self).wf(),
            old(self).can_spawn(),
        ensures
            final(self).wf(),
            final(self).despawned() == old(self).despawned(),
            final(self).resource_spec() == old(self).resource_spec(),
            !old(self).live(e),
            final(self).live(e),
            forall|x: Entity| x != e ==> (final(self).live(x) <==> old(self).live(x)),
            final(self).component_map() == old(self).component_map().insert(e, component),
            old(self).spawned_at(&*final(self), e),
            final(self).live_entities() == old(self).live_entities().insert(e),
            final(self).live_entities().len() == old(self).live_entities().len() + 1,
            final(self).component_map().len() == old(self).component_map().len() + 1,
    {
        match self.try_spawn(component) {
            Ok(e) => e,
            Err(_) => {
                assert(false);
                Entity { index: 0, generation: 0 }
            },
        }
    }

    pub fn contains(&self, entity: Entity) -> (b: bool)
        requires
            self.wf(),
        ensures
            b == self.live(entity),
    {
        let index = entity.index as usize;
        if index >= self.slots.len() {
            return false;
        }
        let slot = self.slots[index];
        slot.alive && !slot.retired && slot.generation == entity.generation
    }

    /// Removes an entity and its component; a slot whose generation is exhausted is retired
    /// permanently instead of being reused.
    pub fn despawn(&mut self, entity: Entity) -> (r: Result<(), WorldError>)
        requires
            old(self).wf(),
        ensures
            final(self).wf(),
            final(self).resource_spec() == old(self).resource_spec(),
            r is Err <==> !old(self).live(entity),
            r is Err ==> r == Err::<(), WorldError>(WorldError::EntityNotFound(entity))
                && *final(self) == *old(self),
            r is Ok ==> {
                &&& !final(self).live(entity)
                &&& forall|x: Entity| x != entity ==> (final(self).live(x) <==> old(self).live(x))
                &&& final(self).component_map() == old(self).component_map().remove(entity)
                &&& final(self).despawned() == old(self).despawned().insert(entity)
                &&& forall|i: int| #[trigger] final(self).retired_index(i) == (old(self).retired_index(i) || (i
                    == entity.idx() && entity.gen() == u32::MAX))
                &&& final(self).live_entities() == old(self).live_entities().remove(entity)
                &&& final(self).live_entities().len() + 1 == old(self).live_entities().len()
                &&& final(self).component_map().len() + (if old(self).component_map().contains_key(entity) {
                    1int
                } else {
                    0
                }) == old(self).component_map().len()
                &&& final(self).slot_count() == old(self).slot_count()
                &&& if old(self).slot_generation(entity.idx() as int) == u32::MAX {
                    final(self).free_indices() == old(self).free_indices()
                } else {
                    &&& final(self).free_indices() == old(self).free_indices().push(entity.idx())
                    &&& final(self).slot_generation(entity.idx() as int)
                        == entity.gen() + 1
                }
            },
    {
        if !self.contains(entity) {
            return Err(WorldError::EntityNotFound(entity));
        }
        let ghost old_map = self.component_map();
        let index = entity.index as usize;
        let slot = self.slots[index];
        let had_component = self.components[index].is_some();
        self.components.set(index, None);
        proof {
            lemma_count_some_update_none(old(self).components@, index as int);
        }
        if had_component {
            self.component_total = self.component_total - 1;
        }
        if slot.generation == u32::MAX {
            self.slots.set(index, EntitySlot { generation: slot.generation, alive: false, retired: true });
        } else {
            self.slots.set(
                index,
                EntitySlot { generation: slot.generation + 1, alive: false, retired: false },
            );
            self.free_list.push(entity.index);
            proof {
                assert forall|k: int| 0 <= k < old(self).free_list@.len() implies
                    old(self).free_list@[k] != entity.index by {
                    assert(old(self).free_list@[k] == old(self).free_list@[k]);
                }
            }
        }
        proof {
            self.retired_handles@ = self.retired_handles@.insert(entity);
            assert(self.component_map() =~= old_map.remove(entity));
            assert(self.live_entities() =~= old(self).live_entities().remove(entity));
            old(self).lemma_counts();
            self.lemma_counts();
        }
        Ok(())
    }

    /// Stores `component` for a live entity, returning the component it replaces.
    pub fn insert(&mut self, entity: Entity, component: C) -> (r: Result<Option<C>, WorldError>)
        requires
            old(self).wf(),
        ensures
            final(self).wf(),
            final(self).despawned() == old(self).despawned(),
            final(self).resource_spec() == old(self).resource_spec(),
            forall|x: Entity| final(self).live(x) == old(self).live(x),
            final(self).slot_count() == old(self).slot_count(),
            final(self).free_indices() == old(self).free_indices(),
            forall|i: int| #[trigger] final(self).retired_index(i) == old(self).retired_index(i),
            r is Err <==> !old(self).live(entity),
            r is Err ==> r == Err::<Option<C>, WorldError>(WorldError::EntityNotFound(entity))
                && *final(self) == *old(self),
            r matches Ok(previous) ==> {
                &&& final(self).component_map() == old(self).component_map().insert(
                    entity,
                    component,
                )
                &&& final(self).component_map().len() == old(self).component_map().len() + (if previous is Some {
                    0int
                } else {
                    1
                })
                &&& previous == if old(self).component_map().contains_key(entity) {
                    Some(old(self).component_map()[entity])
                } else {
                    None
                }
            },
    {
        if !self.contains(entity) {
            return Err(WorldError::EntityNotFound(entity));
        }
        let ghost old_map = self.component_map();
        let index = entity.index as usize;
        let previous = self.take_component(index);
        self.put_component(index, component);
        proof {
            assert(self.component_map() =~= old_map.insert(entity, component));
            old(self).lemma_counts();
            self.lemma_counts();
        }
        Ok(previous)
    }

    /// Removes the component at slot `index`, keeping the count consistent.
    fn take_component(&mut self, index: usize) -> (previous: Option<C>)
        requires
            old(self).wf(),
            index < old(self).slots@.len(),
        ensures
            final(self).wf(),
            final(self).slots == old(self).slots,
            final(self).free_list == old(self).free_list,
            final(self).resource == old(self).resource,
            final(self).retired_handles == old(self).retired_handles,
            final(self).components@ == old(self).components@.update(index as int, None),
            previous == old(self).components@[index as int],
    {
        let mut previous = None;
        self.components_swap(index, &mut previous);
        proof {
            lemma_count_some_update_none(old(self).components@, index as int);
        }
        if previous.is_some() {
            self.component_total = self.component_total - 1;
        }
        previous
    }

    /// Stores a component at an empty slot `index` of an alive, unretired slot.
    fn put_component(&mut self, index: usize, component: C)
        requires
            old(self).wf(),
            index < old(self).slots@.len(),
            old(self).slots@[index as int].alive,
            !old(self).slots@[index as int].retired,
            old(self).components@[index as int] is None,
        ensures
            final(self).wf(),
            final(self).slots == old(self).slots,
            final(self).free_list == old(self).free_list,
            final(self).resource == old(self).resource,
            final(self).retired_handles == old(self).retired_handles,
            final(self).components@ == old(self).components@.update(
                index as int,
                Some(component),
            ),
    {
        proof {
            lemma_count_some_below_len(self.components@, index as int);
            lemma_count_some_update_some(self.components@, index as int, component);
        }
        let column_len = self.components.len();
        let mut slot = Some(component);
        self.components_swap(index, &mut slot);
        self.component_total = self.component_total + 1;
    }

    /// Exchanges the component at slot `index` with `value`.
    fn components_swap(&mut self, index: usize, value: &mut Option<C>)
        requires
            index < old(self).components@.len(),
        ensures
            final(self).slots == old(self).slots,
            final(self).free_list == old(self).free_list,
            final(self).resource == old(self).resource,
            final(self).retired_handles == old(self).retired_handles,
            final(self).component_total == old(self).component_total,
            final(self).components@ == old(self).components@.update(index as int, *old(value)),
            *final(value) == old(self).components@[index as int],
    {
        let element = &mut self.components[index];
        std::mem::swap(element, value);
    }

    pub fn get(&self, entity: Entity) -> (r: Option<&C>)
        requires
            self.wf(),
        ensures
            match r {
                Some(c) => self.component_map().contains_key(entity) && *c
                    == self.component_map()[entity],
                None => !self.component_map().contains_key(entity),
            },
    {
        if !self.contains(entity) {
            return None;
        }
        self.components[entity.index as usize].as_ref()
    }

    pub fn get_mut(&mut self, entity: Entity) -> (r: Option<&mut C>)
        requires
            old(self).wf(),
        ensures
            match r {
                Some(c) => {
                    &&& old(self).component_map().contains_key(entity)
                    &&& *c == old(self).component_map()[entity]
                    &&& final(self).wf()
                    &&& final(self).component_map() == old(self).component_map().insert(
                        entity,
                        *final(c),
                    )
                    &&& forall|x: Entity| final(self).live(x) == old(self).live(x)
                    &&& forall|i: int| #[trigger] final(self).retired_index(i) == old(self).retired_index(i)
                    &&& final(self).despawned() == old(self).despawned()
                    &&& final(self).resource_spec() == old(self).resource_spec()
                },
                None => {
                    &&& !old(self).component_map().contains_key(entity)
                    &&& *final(self) == *old(self)
                },
            },
    {
        if !self.contains(entity) {
            return None;
        }
        let index = entity.index as usize;
        if self.components[index].is_none() {
            return None;
        }
        proof {
            lemma_count_some_replace_some(self.components@, index as int);
        }
        let element = &mut self.components[index];
        element.as_mut()
    }

    pub fn remove(&mut self, entity: Entity) -> (r: Result<Option<C>, WorldError>)
        requires
            old(self).wf(),
        ensures
            final(self).wf(),
            final(self).despawned() == old(self).despawned(),
            final(self).resource_spec() == old(self).resource_spec(),
            forall|x: Entity| final(self).live(x) == old(self).live(x),
            r is Err <==> !old(self).live(entity),
            r is Err ==> r == Err::<Option<C>, WorldError>(WorldError::EntityNotFound(entity))
                && *final(self) == *old(self),
            r matches Ok(previous) ==> {
                &&& final(self).component_map() == old(self).component_map().remove(entity)
                &&& forall|i: int| #[trigger] final(self).retired_index(i) == old(self).retired_index(i)
                &&& final(self).slot_count() == old(self).slot_count()
                &&& final(self).free_indices() == old(self).free_indices()
                &&& final(self).component_map().len() + (if previous is Some { 1int } else { 0 }) == old(
                    self,
                ).component_map().len()
                &&& previous == if old(self).component_map().contains_key(entity) {
                    Some(old(self).component_map()[entity])
                } else {
                    None
                }
            },
    {
        if !self.contains(entity) {
            return Err(WorldError::EntityNotFound(entity));
        }
        let ghost old_map = self.component_map();
        let previous = self.take_component(entity.index as usize);
        proof {
            assert(self.component_map() =~= old_map.remove(entity));
            old(self).lemma_counts();
            self.lemma_counts();
        }
        Ok(previous)
    }

    /// Entities with a component and their components, in ascending slot order.
    pub fn iter(&self) -> (items: Vec<(Entity, &C)>)
        requires
            self.wf(),
        ensures
            forall|k: int|
                0 <= k < items@.len() ==> {
                    &&& self.component_map().contains_key(#[trigger] items@[k].0)
                    &&& *items@[k].1 == self.component_map()[items@[k].0]
                },
            forall|e: Entity|
                #[trigger] self.component_map().contains_key(e) ==> exists|k: int|
                    0 <= k < items@.len() && items@[k].0 == e,
            forall|k1: int, k2: int|
                0 <= k1 < k2 < items@.len() ==> (#[trigger] items@[k1]).0.idx() < (#[trigger] items@[k2]).0.idx(),
    {
        let mut items: Vec<(Entity, &C)> = Vec::new();
        let mut index: usize = 0;
        while index < self.slots.len()
            invariant
                self.wf(),
                index <= self.slots@.len(),
                forall|k: int|
                    0 <= k < items@.len() ==> {
                        &&& self.component_map().contains_key(#[trigger] items@[k].0)
                        &&& *items@[k].1 == self.component_map()[items@[k].0]
                        &&& (items@[k].0.index as int) < index
                    },
                forall|e: Entity|
                    #[trigger] self.component_map().contains_key(e) && (e.index as int) < index
                        ==> exists|k: int| 0 <= k < items@.len() && items@[k].0 == e,
                forall|k1: int, k2: int|
                    0 <= k1 < k2 < items@.len() ==> (#[trigger] items@[k1]).0.index < (#[trigger] items@[k2]).0.index,
            decreases self.slots@.len() - index,
        {
            let slot = self.slots[index];
            let ghost before = items@;
            match self.components[index].as_ref() {
                Some(component) => {
                    let entity = Entity { index: index as u32, generation: slot.generation };
                    assert(self.live(entity));
                    items.push((entity, component));
                    proof {
                        assert forall|e: Entity|
                            #[trigger] self.component_map().contains_key(e) && (e.index as int)
                                < index + 1 implies exists|k: int|
                            0 <= k < items@.len() && items@[k].0 == e by {
                            if (e.index as int) < index {
                                let k = choose|k: int| 0 <= k < before.len() && before[k].0 == e;
                                assert(items@[k].0 == e);
                            } else {
                                assert(items@[before.len() as int].0 == e);
                            }
                        }
                    }
                },
                None => {
                    proof {
                        assert forall|e: Entity|
                            #[trigger] self.component_map().contains_key(e) && (e.index as int)
                                < index + 1 implies exists|k: int|
                            0 <= k < items@.len() && items@[k].0 == e by {
                            assert((e.index as int) != index);
                        }
                    }
                },
            }
            index = index + 1;
        }
        items
    }

    /// The number of live entities.
    pub fn entity_count(&self) -> (n: usize)
        requires
            self.wf(),
        ensures
            n == self.alive_count(),
            n == self.live_entities().len(),
    {
        let mut n: usize = 0;
        let mut index: usize = 0;
        while index < self.slots.len()
            invariant
                index <= self.slots@.len(),
                n == count_alive(self.slots@.take(index as int)),
                n <= index,
            decreases self.slots@.len() - index,
        {
            assert(self.slots@.take(index + 1).drop_last() =~= self.slots@.take(index as int));
            if self.slots[index].alive {
                n = n + 1;
            }
            index = index + 1;
        }
        assert(self.slots@.take(self.slots@.len() as int) =~= self.slots@);
        proof {
            self.lemma_counts();
        }
        n
    }

    /// The number of entities with a component.
    pub fn component_count(&self) -> (n: usize)
        requires
            self.wf(),
        ensures
            n == self.component_total_spec(),
            n == self.component_map().len(),
    {
        proof {
            self.lemma_counts();
        }
        self.component_total
    }

    pub fn insert_resource(&mut self, resource: R) -> (previous: Option<R>)
        requires
            old(self).wf(),
        ensures
            final(self).wf(),
            final(self).resource_spec() == Some(resource),
            previous == old(self).resource_spec(),
            final(self).component_map() == old(self).component_map(),
            final(self).despawned() == old(self).despawned(),
            forall|x: Entity| final(self).live(x) == old(self).live(x),
            forall|i: int| #[trigger] final(self).retired_index(i) == old(self).retired_index(i),
    {
        let previous = self.resource.take();
        self.resource = Some(resource);
        previous
    }

    pub fn get_resource(&self) -> (r: Option<&R>)
        ensures
            match r {
                Some(v) => self.resource_spec() == Some(*v),
                None => self.resource_spec() is None,
            },
    {
        self.resource.as_ref()
    }

    pub fn get_resource_mut(&mut self) -> (r: Option<&mut R>)
        requires
            old(self).wf(),
        ensures
            match r {
                Some(v) => {
                    &&& old(self).resource_spec() == Some(*v)
                    &&& final(self).resource_spec() == Some(*final(v))
                    &&& final(self).wf()
                    &&& final(self).component_map() == old(self).component_map()
                    &&& final(self).despawned() == old(self).despawned()
                    &&& forall|x: Entity| final(self).live(x) == old(self).live(x)
                    &&& forall|i: int| #[trigger] final(self).retired_index(i) == old(self).retired_index(i)
                },
                None => old(self).resource_spec() is None && *final(self) == *old(self),
            },
    {
        self.resource.as_mut()
    }
}

/// Clearing one entry changes the count by what that entry contributed.
proof fn lemma_count_some_update_none<C>(s: Seq<Option<C>>, i: int)
    requires
        0 <= i < s.len(),
    ensures
        count_some(s.update(i, None)) + if s[i] is Some { 1nat } else { 0nat } == count_some(s),
    decreases s.len(),
{
    let t = s.update(i, None);
    if i == s.len() - 1 {
        assert(t.drop_last() =~= s.drop_last());
    } else {
        lemma_count_some_update_none(s.drop_last(), i);
        assert(t.drop_last() =~= s.drop_last().update(i, None));
    }
}

/// Filling an empty entry increases the count by one.
proof fn lemma_count_some_update_some<C>(s: Seq<Option<C>>, i: int, c: C)
    requires
        0 <= i < s.len(),
        s[i] is None,
    ensures
        count_some(s.update(i, Some(c))) == count_some(s) + 1,
    decreases s.len(),
{
    let t = s.update(i, Some(c));
    if i == s.len() - 1 {
        assert(t.drop_last() =~= s.drop_last());
    } else {
        lemma_count_some_update_some(s.drop_last(), i, c);
        assert(t.drop_last() =~= s.drop_last().update(i, Some(c)));
    }
}

/// With an empty entry the count is below the length.
proof fn lemma_count_some_below_len<C>(s: Seq<Option<C>>, i: int)
    requires
        0 <= i < s.len(),
        s[i] is None,
    ensures
        count_some(s) < s.len(),
    decreases s.len(),
{
    if i == s.len() - 1 {
        lemma_count_some_bound(s.drop_last());
    } else {
        lemma_count_some_below_len(s.drop_last(), i);
    }
}

/// Replacing a present entry by another present entry keeps the count.
proof fn lemma_count_some_replace_some<C>(s: Seq<Option<C>>, i: int)
    requires
        0 <= i < s.len(),
        s[i] is Some,
    ensures
        forall|c: C| #[trigger] count_some(s.update(i, Some(c))) == count_some(s),
{
    assert forall|c: C| #[trigger] count_some(s.update(i, Some(c))) == count_some(s) by {
        lemma_count_some_update_none(s, i);
        lemma_count_some_update_some(s.update(i, None), i, c);
        assert(s.update(i, None).update(i, Some(c)) =~= s.update(i, Some(c)));
    }
}

/// The count never exceeds the length.
proof fn lemma_count_some_bound<C>(s: Seq<Option<C>>)
    ensures
        count_some(s) <= s.len(),
    decreases s.len(),
{
    if s.len() > 0 {
        lemma_count_some_bound(s.drop_last());
    }
}

} // verus!
