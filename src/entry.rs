use vstd::prelude::*;

use crate::archetype::{
    first_index, is_first_index, lemma_first_index_exists, lemma_first_index_push,
    lemma_unassign_wf, preserves_others, Archetype, ArchetypeStorage, Entity,
};
use crate::location::{EntityLocation, LocationMap};
use crate::storage::{Component, ComponentStorages, ComponentType, Storage};

verus! {

/// The value of type `t` held by an entity with the given layout and
/// locations: the one its first `t` slot points at, or nothing when `t` is
/// not part of the layout.
pub open spec fn lookup<C>(
    layout: Seq<ComponentType>,
    locations: Seq<EntityLocation>,
    storages: Map<ComponentType, Seq<C>>,
    t: ComponentType,
) -> Option<C> {
    if layout.contains(t) {
        Some(storages[t][locations[first_index(layout, t)].1 as int])
    } else {
        None
    }
}

/// One location per layout slot, each addressing a stored value of that slot's type.
pub open spec fn locations_valid<C>(
    layout: Seq<ComponentType>,
    locations: Seq<EntityLocation>,
    storages: Map<ComponentType, Seq<C>>,
) -> bool {
    &&& locations.len() == layout.len()
    &&& forall|i: int|
        0 <= i < layout.len() ==> {
            &&& storages.contains_key(#[trigger] layout[i])
            &&& locations[i].1 < storages[layout[i]].len()
        }
}

/// The value a reference option points at.
pub open spec fn opt_value<C>(r: Option<&C>) -> Option<C> {
    match r {
        Some(v) => Some(*v),
        None => None,
    }
}

/// Every storage keeps its values in place and at most grows.
pub open spec fn storages_grow<C>(
    s0: Map<ComponentType, Seq<C>>,
    s1: Map<ComponentType, Seq<C>>,
) -> bool {
    forall|t: ComponentType| #[trigger]
        s0.contains_key(t) ==> s1.contains_key(t) && s0[t].is_prefix_of(s1[t])
}

/// Once stored, a value keeps its position as the storages grow.
pub proof fn lemma_position_stable<C>(
    s0: Map<ComponentType, Seq<C>>,
    s1: Map<ComponentType, Seq<C>>,
    t: ComponentType,
    p: int,
)
    requires
        storages_grow(s0, s1),
        s0.contains_key(t),
        0 <= p < s0[t].len(),
    ensures
        s1.contains_key(t),
        s1[t][p] == s0[t][p],
{
}

/// Growth composes, so positions stay stable across any run of operations.
pub proof fn lemma_storages_grow_trans<C>(
    s0: Map<ComponentType, Seq<C>>,
    s1: Map<ComponentType, Seq<C>>,
    s2: Map<ComponentType, Seq<C>>,
)
    requires
        storages_grow(s0, s1),
        storages_grow(s1, s2),
    ensures
        storages_grow(s0, s2),
{
    assert forall|t: ComponentType| #[trigger] s0.contains_key(t) implies s2.contains_key(t)
        && s0[t].is_prefix_of(s2[t]) by {
        assert(s1.contains_key(t));
    }
}

/// The registry, the storages and the location table agree: the entities with
/// locations are exactly the archetype members, and each entity's locations
/// follow its archetype's layout and address stored values.
pub open spec fn consistent<C>(
    archetypes: ArchetypeStorage,
    components: ComponentStorages<C>,
    locations: LocationMap,
) -> bool {
    &&& archetypes.wf()
    &&& forall|id: u32| #[trigger] locations@.contains_key(id) == archetypes.has_entity(id)
    &&& forall|id: u32| #[trigger]
        locations@.contains_key(id) ==> locations_valid(
            archetypes.entity_layout(id),
            locations@[id],
            components@,
        )
}

/// The value of type `t` that entity `id` holds in the store.
pub open spec fn entity_component<C>(
    archetypes: ArchetypeStorage,
    components: ComponentStorages<C>,
    locations: LocationMap,
    id: u32,
    t: ComponentType,
) -> Option<C> {
    lookup(archetypes.entity_layout(id), locations@[id], components@, t)
}

/// The store after `component`, of type `t`, was added to entity `id`: the
/// entity moved to the archetype of its old layout followed by `t`, the value
/// went to the end of `t`'s storage, and one location for it was appended to
/// the entity's list. The entity now holds the value under `t` unless it held
/// a `t` already; everything else it and the other entities hold, every other
/// location list, and every existing archetype's layout are unchanged.
pub open spec fn component_added<C>(
    a0: ArchetypeStorage,
    c0: ComponentStorages<C>,
    l0: LocationMap,
    a1: ArchetypeStorage,
    c1: ComponentStorages<C>,
    l1: LocationMap,
    id: u32,
    t: ComponentType,
    component: C,
) -> bool {
    let old_layout = a0.entity_layout(id);
    let new_layout = old_layout.push(t);
    &&& consistent(a1, c1, l1)
    &&& a1.has_entity(id)
    &&& a1.entity_layout(id) == new_layout
    &&& c1@ == c0@.insert(t, c0.values_of(t).push(component))
    &&& storages_grow(c0@, c1@)
    &&& l1@ == l0@.insert(
        id,
        l0@[id].push(EntityLocation(a1.entity_index(id) as u32, c0.values_of(t).len() as usize)),
    )
    &&& a1.layouts() == a0.layouts().insert(new_layout)
    &&& a1@.len() == a0@.len() + if a0.has_layout(new_layout) {
        0int
    } else {
        1int
    }
    &&& preserves_others(a0, a1, id)
    &&& forall|x: u32| #[trigger] l1@.contains_key(x) == l0@.contains_key(x)
    &&& forall|u: ComponentType| #[trigger]
        entity_component(a1, c1, l1, id, u) == if u == t && !old_layout.contains(t) {
            Some(component)
        } else {
            entity_component(a0, c0, l0, id, u)
        }
    &&& forall|x: u32|
        x != id && l0@.contains_key(x) ==> #[trigger] a1.entity_layout(x) == a0.entity_layout(x)
    &&& forall|x: u32, u: ComponentType|
        x != id && l0@.contains_key(x) ==> #[trigger] entity_component(a1, c1, l1, x, u)
            == entity_component(a0, c0, l0, x, u)
}

/// Lookups through valid locations survive storages that only grow.
pub proof fn lemma_lookup_grow<C>(
    layout: Seq<ComponentType>,
    locations: Seq<EntityLocation>,
    s0: Map<ComponentType, Seq<C>>,
    s1: Map<ComponentType, Seq<C>>,
)
    requires
        locations_valid(layout, locations, s0),
        storages_grow(s0, s1),
    ensures
        locations_valid(layout, locations, s1),
        forall|u: ComponentType| #[trigger] lookup(layout, locations, s1, u) == lookup(layout, locations, s0, u),
{
    assert forall|i: int| 0 <= i < layout.len() implies {
        &&& s1.contains_key(#[trigger] layout[i])
        &&& locations[i].1 < s1[layout[i]].len()
    } by {
        assert(s0.contains_key(layout[i]));
    }
    assert forall|u: ComponentType| #[trigger] lookup(layout, locations, s1, u) == lookup(layout, locations, s0, u) by {
        if layout.contains(u) {
            lemma_first_index_exists(layout, u);
            let i = first_index(layout, u);
            assert(s0.contains_key(layout[i]));
            assert(s0[u][locations[i].1 as int] == s1[u][locations[i].1 as int]);
        }
    }
}

/// Appending a type and a location for it to an entity's layout and locations.
pub proof fn lemma_lookup_push<C>(
    layout: Seq<ComponentType>,
    locations: Seq<EntityLocation>,
    storages: Map<ComponentType, Seq<C>>,
    t: ComponentType,
    location: EntityLocation,
)
    requires
        locations_valid(layout, locations, storages),
        storages.contains_key(t),
        location.1 < storages[t].len(),
    ensures
        locations_valid(layout.push(t), locations.push(location), storages),
        forall|u: ComponentType| #[trigger]
            lookup(layout.push(t), locations.push(location), storages, u) == if u == t
                && !layout.contains(t) {
                Some(storages[t][location.1 as int])
            } else {
                lookup(layout, locations, storages, u)
            },
{
    let longer_layout = layout.push(t);
    let longer_locations = locations.push(location);
    assert forall|i: int| 0 <= i < longer_layout.len() implies {
        &&& storages.contains_key(#[trigger] longer_layout[i])
        &&& longer_locations[i].1 < storages[longer_layout[i]].len()
    } by {
        if i < layout.len() {
            assert(longer_layout[i] == layout[i]);
        }
    }
    assert forall|u: ComponentType| #[trigger] lookup(longer_layout, longer_locations, storages, u) == if u == t
        && !layout.contains(t) {
        Some(storages[t][location.1 as int])
    } else {
        lookup(layout, locations, storages, u)
    } by {
        if layout.contains(u) {
            lemma_first_index_push(layout, u, t);
            lemma_first_index_exists(layout, u);
        } else if u == t {
            assert(longer_layout[layout.len() as int] == t);
            assert(is_first_index(longer_layout, t, layout.len() as int));
            crate::archetype::lemma_first_index_unique(longer_layout, t, layout.len() as int);
        } else {
            if longer_layout.contains(u) {
                let i = choose|i: int| 0 <= i < longer_layout.len() && longer_layout[i] == u;
                assert(layout[i] == u);
            }
        }
    }
}

/// Read access to the components of one entity.
pub struct EntryRef<'a, C> {
    entity: &'a Entity,
    archetype: &'a Archetype,
    components: &'a ComponentStorages<C>,
    locations: &'a [EntityLocation],
}

impl<'a, C> EntryRef<'a, C> {
    pub closed spec fn spec_entity(&self) -> Entity {
        *self.entity
    }

    pub closed spec fn spec_archetype(&self) -> Archetype {
        *self.archetype
    }

    pub closed spec fn spec_storages(&self) -> Map<ComponentType, Seq<C>> {
        self.components@
    }

    pub closed spec fn spec_locations(&self) -> Seq<EntityLocation> {
        self.locations@
    }

    /// The locations follow the archetype's layout and address stored values.
    pub open spec fn wf(&self) -> bool {
        locations_valid(self.spec_archetype().spec_layout(), self.spec_locations(), self.spec_storages())
    }

    /// The value of type `t` this entry gives access to.
    pub open spec fn component(&self, t: ComponentType) -> Option<C> {
        lookup(self.spec_archetype().spec_layout(), self.spec_locations(), self.spec_storages(), t)
    }

    pub fn new(
        entity: &'a Entity,
        archetype: &'a Archetype,
        components: &'a ComponentStorages<C>,
        locations: &'a [EntityLocation],
    ) -> (r: Self)
        ensures
            r.spec_entity() == *entity,
            r.spec_archetype() == *archetype,
            r.spec_storages() == components@,
            r.spec_locations() == locations@,
    {
        EntryRef { entity, archetype, components, locations }
    }

    pub fn entity(&self) -> (r: &'a Entity)
        ensures
            *r == self.spec_entity(),
    {
        self.entity
    }

    pub fn archetype(&self) -> (r: &Archetype)
        ensures
            *r == self.spec_archetype(),
    {
        self.archetype
    }

    /// The entity's value of type `component_type`, or nothing when its
    /// layout does not hold that type.
    pub fn get_component(&self, component_type: ComponentType) -> (r: Option<&'a C>)
        requires
            self.wf(),
        ensures
            opt_value(r) == self.component(component_type),
            r is None <==> !self.spec_archetype().spec_layout().contains(component_type),
    {
        match self.archetype.layout().position(component_type) {
            None => None,
            Some(index) => {
                proof {
                    crate::archetype::lemma_first_index_unique(
                        self.archetype.spec_layout(),
                        component_type,
                        index as int,
                    );
                }
                let location = &self.locations[index];
                let storage = self.components.get_storage_raw(component_type);
                storage.get_component(location.component())
            },
        }
    }
}

/// Read and write access to the components of one entity, over the parts of
/// the store it borrows.
pub struct EntryMut<'a, C> {
    pub entity: &'a Entity,
    pub archetypes: &'a mut ArchetypeStorage,
    pub components: &'a mut ComponentStorages<C>,
    pub locations: &'a mut LocationMap,
}

impl<'a, C> EntryMut<'a, C> {
    pub fn new(
        entity: &'a Entity,
        archetypes: &'a mut ArchetypeStorage,
        components: &'a mut ComponentStorages<C>,
        locations: &'a mut LocationMap,
    ) -> (r: Self)
        ensures
            r.entity == entity,
            *r.archetypes == *old(archetypes),
            *r.components == *old(components),
            *r.locations == *old(locations),
            *final(r.archetypes) == *final(archetypes),
            *final(r.components) == *final(components),
            *final(r.locations) == *final(locations),
    {
        EntryMut { entity, archetypes, components, locations }
    }

    pub fn entity(&self) -> (r: &'a Entity)
        ensures
            r == self.entity,
    {
        self.entity
    }

    /// The archetype the entity is a member of.
    pub fn archetype(&self) -> (r: &Archetype)
        requires
            self.archetypes.wf(),
            self.archetypes.has_entity(self.entity.0),
        ensures
            *r == (*old(self.archetypes))@[old(self.archetypes).entity_index(self.entity.0)],
    {
        self.archetypes.find_from_entity(self.entity).unwrap()
    }

    /// The entity's value of type `component_type`, or nothing when its
    /// layout does not hold that type.
    pub fn get_component(&self, component_type: ComponentType) -> (r: Option<&C>)
        requires
            consistent(*self.archetypes, *self.components, *self.locations),
            self.archetypes.has_entity(self.entity.0),
        ensures
            opt_value(r) == entity_component(
                *old(self.archetypes),
                *old(self.components),
                *old(self.locations),
                self.entity.0,
                component_type,
            ),
            r is None <==> !old(self.archetypes).entity_layout(self.entity.0).contains(
                component_type,
            ),
    {
        let entity = self.entity();
        let archetype = self.archetype();
        match archetype.layout().position(component_type) {
            None => None,
            Some(index) => {
                proof {
                    crate::archetype::lemma_first_index_unique(
                        archetype.spec_layout(),
                        component_type,
                        index as int,
                    );
                    assert(self.locations@.contains_key(entity.0));
                }
                let location = &self.locations.get(entity)[index];
                let storage = self.components.get_storage_raw(component_type);
                storage.get_component(location.component())
            },
        }
    }
}

impl<'a, C: Component> EntryMut<'a, C> {
    /// Adds a component to the entity: it moves to the archetype of its layout
    /// extended by the component's type, and the value is stored and located.
    pub fn add_component(&mut self, component: C)
        requires
            consistent(*old(self).archetypes, *old(self).components, *old(self).locations),
            old(self).archetypes.has_entity(old(self).entity.0),
            (*old(self).archetypes)@.len() < u32::MAX,
        ensures
            final(self).entity == old(self).entity,
            *final(final(self).archetypes) == *final(old(self).archetypes),
            *final(final(self).components) == *final(old(self).components),
            *final(final(self).locations) == *final(old(self).locations),
            component_added(
                *old(self).archetypes,
                *old(self).components,
                *old(self).locations,
                *final(self).archetypes,
                *final(self).components,
                *final(self).locations,
                old(self).entity.0,
                component.spec_component_type(),
                component,
            ),
    {
        let ghost a0 = *self.archetypes;
        let ghost c0 = *self.components;
        let ghost l0 = *self.locations;
        let entity = self.entity;
        let ghost id = entity.0;
        let ghost k = a0.entity_index(id);
        let ghost old_layout = a0.entity_layout(id);
        let component_type = component.component_type();

        let current_archetype = self.archetypes.find_from_entity_mut(entity).unwrap();
        let new_layout = current_archetype.layout().extended(component_type);
        assert(current_archetype.members().contains(id));
        current_archetype.unassigne_entity(entity);
        proof {
            lemma_unassign_wf(a0, *self.archetypes, id);
        }
        let ghost a1 = *self.archetypes;

        let index = self.archetypes.assign_to_layout(entity, new_layout);
        let ghost a2 = *self.archetypes;

        let storage = self.components.get_storage_mut(component_type);
        let storage_index = storage.push_component(component);
        let ghost c1 = *self.components;

        let location = EntityLocation::new(index, storage_index);
        self.locations.get_mut(entity).push(location);
        proof {
            let l1 = *self.locations;
            let t = component_type;
            assert(a2.entity_layout(id) == old_layout.push(t));
            assert(c1@ == c0@.insert(t, c0.values_of(t).push(component)));
            assert(l1@ == l0@.insert(id, l0@[id].push(location)));
            assert(storages_grow(c0@, c1@)) by {
                assert forall|u: ComponentType| #[trigger] c0@.contains_key(u) implies c1@.contains_key(u)
                    && c0@[u].is_prefix_of(c1@[u]) by {
                    if u == t {
                        assert(c0.values_of(t) == c0@[t]);
                        assert(c0@[u].is_prefix_of(c1@[u]));
                    }
                }
            }
            assert(l0@.contains_key(id));
            lemma_lookup_grow(old_layout, l0@[id], c0@, c1@);
            lemma_lookup_push(old_layout, l0@[id], c1@, t, location);
            assert(c1@[t][location.1 as int] == component);
            assert forall|x: u32| #[trigger] l1@.contains_key(x) == a2.has_entity(x) by {
                if x != id {
                    assert(a1.has_entity(x) == a0.has_entity(x));
                }
            }
            assert forall|x: u32| x != id && l0@.contains_key(x) implies #[trigger] a2.entity_layout(x)
                == a0.entity_layout(x) by {
                assert(a0.has_entity(x));
                assert(a1.has_entity(x));
                assert(a1.entity_index(x) == a0.entity_index(x));
                assert(a2.entity_index(x) == a1.entity_index(x));
            }
            assert forall|x: u32| #[trigger]
                l1@.contains_key(x) implies locations_valid(a2.entity_layout(x), l1@[x], c1@) by {
                if x != id {
                    assert(a2.entity_layout(x) == a0.entity_layout(x));
                    lemma_lookup_grow(a0.entity_layout(x), l0@[x], c0@, c1@);
                }
            }
            assert forall|x: u32, u: ComponentType|
                x != id && l0@.contains_key(x) implies #[trigger] entity_component(a2, c1, l1, x, u)
                == entity_component(a0, c0, l0, x, u) by {
                assert(a2.entity_layout(x) == a0.entity_layout(x));
                lemma_lookup_grow(a0.entity_layout(x), l0@[x], c0@, c1@);
            }
            assert(a2.layouts() == a0.layouts().insert(a2.entity_layout(id)));
            assert(a1.layouts().contains(new_layout@) == a1.has_layout(new_layout@));
            assert(a0.layouts().contains(new_layout@) == a0.has_layout(new_layout@));
            assert(location == EntityLocation(
                a2.entity_index(id) as u32,
                c0.values_of(t).len() as usize,
            ));
            assert(preserves_others(a0, a2, id)) by {
                assert forall|x: u32| x != id && a0.has_entity(x) implies #[trigger] a2.entity_index(x)
                    == a0.entity_index(x) by {
                    assert(a1.has_entity(x));
                    assert(a1.entity_index(x) == a0.entity_index(x));
                }
            }
        }
    }
}

} // verus!
