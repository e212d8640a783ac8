use vstd::prelude::*;

use std::collections::HashMap;

use crate::archetype::{ArchetypeIndex, Entity};
use crate::storage::ComponentIndex;

verus! {

broadcast use vstd::std_specs::hash::group_hash_axioms;

/// Where one component value of an entity lives: the archetype it was added in,
/// and its position in its type's storage.
#[derive(Debug, Clone, Copy, PartialEq, Eq, Structural)]
pub struct EntityLocation(pub ArchetypeIndex, pub ComponentIndex);

impl EntityLocation {
    pub fn new(archetype_index: ArchetypeIndex, component_index: ComponentIndex) -> (r: Self)
        ensures
            r == EntityLocation(archetype_index, component_index),
    {
        EntityLocation(archetype_index, component_index)
    }

    pub fn archetype(&self) -> (r: ArchetypeIndex)
        ensures
            r == self.0,
    {
        self.0
    }

    pub fn component(&self) -> (r: ComponentIndex)
        ensures
            r == self.1,
    {
        self.1
    }
}

/// For each entity, the locations of its components, in layout order.
#[derive(Debug)]
pub struct LocationMap {
    locations: HashMap<u32, Vec<EntityLocation>>,
}

impl View for LocationMap {
    type V = Map<u32, Seq<EntityLocation>>;

    closed spec fn view(&self) -> Map<u32, Seq<EntityLocation>> {
        self.locations@.map_values(|v: Vec<EntityLocation>| v@)
    }
}

impl LocationMap {
    pub fn new() -> (r: Self)
        ensures
            r@ == Map::<u32, Seq<EntityLocation>>::empty(),
    {
        let r = LocationMap { locations: HashMap::new() };
        assert(r@ =~= Map::<u32, Seq<EntityLocation>>::empty());
        r
    }

    pub fn get(&self, entity: &Entity) -> (r: &[EntityLocation])
        requires
            self@.contains_key(entity.0),
        ensures
            r@ == self@[entity.0],
    {
        self.locations.get(&entity.0).unwrap().as_slice()
    }

    pub fn get_mut(&mut self, entity: &Entity) -> (r: &mut Vec<EntityLocation>)
        requires
            old(self)@.contains_key(entity.0),
        ensures
            r@ == old(self)@[entity.0],
            final(self)@ == old(self)@.insert(entity.0, final(r)@),
    {
        let r = self.locations.entry(entity.0).or_insert(Vec::new());
        proof {
            assert(after_borrow(self.locations)@ == old(self).locations@.insert(entity.0, *final(r)));
        }
        r
    }

    /// Sets the entity's locations, replacing any earlier ones.
    pub fn insert(&mut self, entity: Entity, component_indecies: Vec<EntityLocation>)
        ensures
            final(self)@ == old(self)@.insert(entity.0, component_indecies@),
    {
        self.locations.insert(entity.0, component_indecies);
        assert(self@ =~= old(self)@.insert(entity.0, component_indecies@));
    }
}

} // verus!
