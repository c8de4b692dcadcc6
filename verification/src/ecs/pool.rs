//! Dense storage for the components of one kind.

use crate::ecs::Entity;
use std::collections::HashMap;
use vstd::prelude::*;

verus! {

/// A map after `id` was given `component`: the first component stays.
pub open spec fn added<T>(m: Map<Entity, T>, id: Entity, component: T) -> Map<Entity, T> {
    if m.contains_key(id) {
        m
    } else {
        m.insert(id, component)
    }
}

/// Giving an entity a component twice is giving it once: the second
/// component is ignored, and an entity that had none has the first.
pub proof fn lemma_first_component_stays<T>(m: Map<Entity, T>, id: Entity, first: T, second: T)
    ensures
        added(added(m, id, first), id, second) == added(m, id, first),
        added(added(m, id, first), id, second).contains_key(id),
        !m.contains_key(id) ==> added(added(m, id, first), id, second)[id] == first,
        m.contains_key(id) ==> added(added(m, id, first), id, second)[id] == m[id],
{
}

/// The components of one kind, packed without gaps.
///
/// Three structures are kept in step: the components, the entities that own
/// them (same length, same order), and for each owning entity the slot at
/// which both are found.
pub struct ComponentPool<T> {
    components: Vec<T>,
    entities: Vec<Entity>,
    index_map: HashMap<Entity, usize>,
}

impl<T> View for ComponentPool<T> {
    type V = Map<Entity, T>;

    /// The pool as a map from each owning entity to its component.
    open spec fn view(&self) -> Map<Entity, T> {
        Map::new(
            |e: Entity| self.slots().contains_key(e),
            |e: Entity| self.component_seq()[self.slots()[e] as int],
        )
    }
}

impl<T> ComponentPool<T> {
    /// The owning entities in storage order.
    pub closed spec fn entity_seq(&self) -> Seq<Entity> {
        self.entities@
    }

    /// The components in storage order.
    pub closed spec fn component_seq(&self) -> Seq<T> {
        self.components@
    }

    /// The slot of each owning entity.
    pub closed spec fn slots(&self) -> Map<Entity, usize> {
        self.index_map@
    }

    /// The three structures agree: equal lengths, and the slot map is the
    /// inverse of the entity sequence.
    pub open spec fn wf(&self) -> bool {
        &&& self.entity_seq().len() == self.component_seq().len()
        &&& forall|i: int|
            0 <= i < self.entity_seq().len() ==> {
                &&& self.slots().contains_key(#[trigger] self.entity_seq()[i])
                &&& self.slots()[self.entity_seq()[i]] == i
            }
        &&& forall|e: Entity| #[trigger]
            self.slots().contains_key(e) ==> {
                &&& self.slots()[e] < self.entity_seq().len()
                &&& self.entity_seq()[self.slots()[e] as int] == e
            }
    }

    /// A consistent pool is dense: the three structures have one length, no
    /// entity owns two slots, the owners are the entities of the sequence,
    /// and the component of the entity at a slot is the component at that
    /// slot.
    pub proof fn lemma_dense(&self)
        requires
            self.wf(),
        ensures
            self.entity_seq().len() == self.component_seq().len(),
            self.slots().dom().finite(),
            self.slots().len() == self.entity_seq().len(),
            self.entity_seq().no_duplicates(),
            self@.dom() == self.slots().dom(),
            forall|e: Entity| self@.contains_key(e) <==> self.entity_seq().contains(e),
            forall|i: int|
                0 <= i < self.entity_seq().len() ==> self@[#[trigger] self.entity_seq()[i]]
                    == self.component_seq()[i],
    {
        let ids = self.entity_seq();
        assert(self.slots().dom() =~= ids.to_set());
        ids.unique_seq_to_set();
    }

    /// An empty pool.
    pub fn new() -> (pool: Self)
        ensures
            pool.wf(),
            pool.entity_seq() == Seq::<Entity>::empty(),
            pool.component_seq() == Seq::<T>::empty(),
            pool.slots() == Map::<Entity, usize>::empty(),
            pool@ == Map::<Entity, T>::empty(),
    {
        Self { components: Vec::new(), entities: Vec::new(), index_map: HashMap::new() }
    }

    /// Gives `id` the component, unless it already has one of this kind:
    /// the first component stays.
    pub fn add(&mut self, id: Entity, component: T)
        requires
            old(self).wf(),
        ensures
            final(self).wf(),
            final(self)@ == added(old(self)@, id, component),
            old(self).slots().contains_key(id) ==> {
                &&& final(self).entity_seq() == old(self).entity_seq()
                &&& final(self).component_seq() == old(self).component_seq()
                &&& final(self).slots() == old(self).slots()
            },
            !old(self).slots().contains_key(id) ==> {
                &&& final(self).entity_seq() == old(self).entity_seq().push(id)
                &&& final(self).component_seq() == old(self).component_seq().push(component)
                &&& final(self).slots() == old(self).slots().insert(
                    id,
                    old(self).entity_seq().len() as usize,
                )
            },
    {
        if self.index_map.contains_key(&id) {
            return ;
        }
        let index: usize = self.components.len();
        self.index_map.insert(id, index);
        self.entities.push(id);
        self.components.push(component);
        assert(self@ =~= old(self)@.insert(id, component));
    }

    /// Takes the component of `id` away, if it has one. The last pair moves
    /// into the freed slot, so that the storage stays packed: only that one
    /// entity changes slot, and every other entity keeps its component.
    pub fn remove(&mut self, id: Entity)
        requires
            old(self).wf(),
        ensures
            final(self).wf(),
            final(self)@ == old(self)@.remove(id),
            !old(self).slots().contains_key(id) ==> {
                &&& final(self).entity_seq() == old(self).entity_seq()
                &&& final(self).component_seq() == old(self).component_seq()
                &&& final(self).slots() == old(self).slots()
            },
            old(self).slots().contains_key(id) ==> {
                let slot = old(self).slots()[id];
                &&& final(self).entity_seq() == old(self).entity_seq().update(
                    slot as int,
                    old(self).entity_seq().last(),
                ).drop_last()
                &&& final(self).component_seq() == old(self).component_seq().update(
                    slot as int,
                    old(self).component_seq().last(),
                ).drop_last()
                &&& final(self).slots() == old(self).slots().insert(
                    old(self).entity_seq().last(),
                    slot,
                ).remove(id)
            },
            forall|e: Entity|
                e != id && #[trigger] old(self).slots().contains_key(e) ==> {
                    &&& final(self).slots().contains_key(e)
                    &&& final(self)@[e] == old(self)@[e]
                    &&& final(self).slots()[e] == if old(self).slots().contains_key(id) && e == old(
                        self,
                    ).entity_seq().last() {
                        old(self).slots()[id]
                    } else {
                        old(self).slots()[e]
                    }
                },
    {
        let slot: usize = match self.index_map.get(&id) {
            Some(slot) => *slot,
            None => {
                return ;
            },
        };
        assert(self.slots().contains_key(id));
        let last_id: Entity = self.entities[self.entities.len() - 1];
        self.index_map.insert(last_id, slot);
        self.index_map.remove(&id);
        self.components.swap_remove(slot);
        self.entities.swap_remove(slot);
    }

    /// The component of `id`, if it has one.
    pub fn get(&self, id: Entity) -> (found: Option<&T>)
        requires
            self.wf(),
        ensures
            found == if self@.contains_key(id) {
                Some(&self@[id])
            } else {
                None
            },
    {
        match self.index_map.get(&id) {
            Some(slot) => {
                assert(self.slots().contains_key(id));
                Some(&self.components[*slot])
            },
            None => None,
        }
    }

    /// The component of `id` for writing, if it has one. Whatever is written
    /// through the reference lands in the slot of `id`; nothing else changes.
    pub fn get_mut(&mut self, id: Entity) -> (found: Option<&mut T>)
        requires
            old(self).wf(),
        ensures
            final(self).wf(),
            final(self).entity_seq() == old(self).entity_seq(),
            final(self).slots() == old(self).slots(),
            match found {
                Some(component) => {
                    &&& old(self)@.contains_key(id)
                    &&& *component == old(self)@[id]
                    &&& final(self).component_seq() == old(self).component_seq().update(
                        old(self).slots()[id] as int,
                        *final(component),
                    )
                    &&& final(self)@ == old(self)@.insert(id, *final(component))
                },
                None => {
                    &&& !old(self)@.contains_key(id)
                    &&& final(self).component_seq() == old(self).component_seq()
                    &&& final(self)@ == old(self)@
                },
            },
    {
        match self.index_map.get(&id) {
            Some(slot) => {
                assert(self.slots().contains_key(id));
                Some(&mut self.components[*slot])
            },
            None => None,
        }
    }

    /// The owning entities in storage order, for a pass over the pool. The
    /// borrow keeps the pool from being changed while the pass runs.
    pub fn entities(&self) -> (ids: &Vec<Entity>)
        ensures
            ids@ == self.entity_seq(),
    {
        &self.entities
    }

    /// The components in storage order: the one at index `i` belongs to the
    /// entity at index `i` of `entities`.
    pub fn components(&self) -> (all: &Vec<T>)
        ensures
            all@ == self.component_seq(),
    {
        &self.components
    }
}

} // verus!
