use vstd::prelude::*;

use crate::archetype::{
    lemma_entity_index, preserves_others, Archetype, ArchetypeStorage, Entity, EntityLayout,
};
use crate::entry::{
    component_added, consistent, entity_component, lemma_lookup_grow, locations_valid, lookup,
    opt_value, storages_grow, EntryMut, EntryRef,
};
use crate::location::{EntityLocation, LocationMap};
use crate::storage::{Component, ComponentStorages, ComponentType, Storage};

verus! {

/// The store: entities, the archetypes they belong to, the component values
/// and where each entity's values live.
#[derive(Debug)]
pub struct World<C> {
    /// The identifier the next spawned entity receives.
    pub entity_id: u32,
    pub locations: LocationMap,
    pub archetypes: ArchetypeStorage,
    pub components: ComponentStorages<C>,
}

impl<C> World<C> {
    /// How many entities have been created; their identifiers are `0..entity_count()`.
    pub open spec fn entity_count(&self) -> nat {
        self.entity_id as nat
    }

    pub open spec fn spec_archetypes(&self) -> ArchetypeStorage {
        self.archetypes
    }

    pub open spec fn spec_components(&self) -> ComponentStorages<C> {
        self.components
    }

    pub open spec fn spec_locations(&self) -> LocationMap {
        self.locations
    }

    /// The parts agree, and the entities with locations are exactly those created.
    pub open spec fn wf(&self) -> bool {
        &&& consistent(self.spec_archetypes(), self.spec_components(), self.spec_locations())
        &&& forall|id: u32| #[trigger]
            self.spec_locations()@.contains_key(id) == (id < self.entity_count())
    }

    pub open spec fn alive(&self, entity: Entity) -> bool {
        entity.0 < self.entity_count()
    }

    /// The layout of the entity's archetype.
    pub open spec fn layout_of(&self, entity: Entity) -> Seq<ComponentType> {
        self.spec_archetypes().entity_layout(entity.0)
    }

    /// The value of type `t` the entity holds, if its layout has `t`.
    pub open spec fn component_of(&self, entity: Entity, t: ComponentType) -> Option<C> {
        entity_component(
            self.spec_archetypes(),
            self.spec_components(),
            self.spec_locations(),
            entity.0,
            t,
        )
    }

    /// All values of type `t`, in insertion order.
    pub open spec fn values_of(&self, t: ComponentType) -> Seq<C> {
        self.spec_components().values_of(t)
    }

    /// The layouts of all archetypes.
    pub open spec fn layouts(&self) -> Set<Seq<ComponentType>> {
        self.spec_archetypes().layouts()
    }

    /// How many archetypes exist.
    pub open spec fn archetype_count(&self) -> nat {
        self.spec_archetypes()@.len()
    }

    /// Entities that existed in `w0` have the same layout and values in `self`.
    pub open spec fn keeps_entities(&self, w0: World<C>) -> bool {
        &&& forall|e: Entity| w0.alive(e) ==> #[trigger] self.layout_of(e) == w0.layout_of(e)
        &&& forall|e: Entity, t: ComponentType|
            w0.alive(e) ==> #[trigger] self.component_of(e, t) == w0.component_of(e, t)
    }

    pub fn new() -> (r: Self)
        ensures
            r.wf(),
            r.entity_count() == 0,
            r.archetype_count() == 0,
            r.layouts() == Set::<Seq<ComponentType>>::empty(),
    {
        let r = World {
            entity_id: 0,
            locations: LocationMap::new(),
            archetypes: ArchetypeStorage::new(),
            components: ComponentStorages::new(),
        };
        assert(r.layouts() =~= Set::<Seq<ComponentType>>::empty());
        r
    }

    /// Read access to the entity's components.
    pub fn entry<'a>(&'a self, entity: &'a Entity) -> (r: EntryRef<'a, C>)
        requires
            self.wf(),
            self.alive(*entity),
        ensures
            r.wf(),
            r.spec_entity() == *entity,
            r.spec_archetype() == self.spec_archetypes()@[self.spec_archetypes().entity_index(
                entity.0,
            )],
            r.spec_archetype().spec_layout() == self.layout_of(*entity),
            forall|t: ComponentType| #[trigger] r.component(t) == self.component_of(*entity, t),
    {
        assert(self.locations@.contains_key(entity.0));
        let archetype = self.archetypes.find_from_entity(entity).unwrap();
        let locations = self.locations.get(entity);
        EntryRef::new(entity, archetype, &self.components, locations)
    }

    /// Read and write access to the entity's components.
    pub fn entry_mut<'a>(&'a mut self, entity: &'a Entity) -> (r: EntryMut<'a, C>)
        ensures
            r.entity == entity,
            *r.archetypes == old(self).spec_archetypes(),
            *r.components == old(self).spec_components(),
            *r.locations == old(self).spec_locations(),
            *final(r.archetypes) == final(self).spec_archetypes(),
            *final(r.components) == final(self).spec_components(),
            *final(r.locations) == final(self).spec_locations(),
            final(self).entity_count() == old(self).entity_count(),
    {
        EntryMut::new(entity, &mut self.archetypes, &mut self.components, &mut self.locations)
    }

    /// The entity's value of type `component_type`; absent exactly when its
    /// layout does not hold that type.
    pub fn get_component<'a>(&'a self, entity: &'a Entity, component_type: ComponentType) -> (r:
        Option<&'a C>)
        requires
            self.wf(),
            self.alive(*entity),
        ensures
            opt_value(r) == self.component_of(*entity, component_type),
            r is None <==> !self.layout_of(*entity).contains(component_type),
    {
        let entry = self.entry(entity);
        entry.get_component(component_type)
    }

    /// All values of type `component_type`, as one contiguous view.
    pub fn query(&mut self, component_type: ComponentType) -> (r: &[C])
        requires
            old(self).wf(),
        ensures
            r@ == old(self).values_of(component_type),
            final(self).wf(),
            final(self).entity_count() == old(self).entity_count(),
            final(self).keeps_entities(*old(self)),
            final(self).spec_archetypes() == old(self).spec_archetypes(),
            storages_grow(old(self).spec_components()@, final(self).spec_components()@),
    {
        let ghost w0 = *self;
        self.components.get_storage(component_type);
        proof {
            let c0 = w0.components@;
            let c1 = self.components@;
            assert(storages_grow(c0, c1)) by {
                assert forall|u: ComponentType| #[trigger] c0.contains_key(u) implies c1.contains_key(u)
                    && c0[u].is_prefix_of(c1[u]) by {
                    if u == component_type {
                        assert(w0.components.values_of(u) == c0[u]);
                    }
                }
            }
            assert forall|id: u32| #[trigger] self.locations@.contains_key(id) implies locations_valid(
                self.archetypes.entity_layout(id),
                self.locations@[id],
                c1,
            ) by {
                lemma_lookup_grow(self.archetypes.entity_layout(id), self.locations@[id], c0, c1);
            }
            assert forall|e: Entity, t: ComponentType| w0.alive(e) implies #[trigger] self.component_of(e, t)
                == w0.component_of(e, t) by {
                assert(self.locations@.contains_key(e.0));
                lemma_lookup_grow(self.archetypes.entity_layout(e.0), self.locations@[e.0], c0, c1);
            }
        }
        self.components.get_storage_raw(component_type).as_slice()
    }
}

impl<C: Component> World<C> {
    /// Creates an entity holding one component: it joins the archetype whose
    /// layout is that component's type alone.
    pub fn spawn(&mut self, component: C) -> (r: Entity)
        requires
            old(self).wf(),
            old(self).entity_count() < u32::MAX,
            old(self).archetype_count() < u32::MAX,
        ensures
            final(self).wf(),
            r.0 == old(self).entity_count(),
            final(self).entity_count() == old(self).entity_count() + 1,
            final(self).layout_of(r) == seq![component.spec_component_type()],
            final(self).component_of(r, component.spec_component_type()) == Some(component),
            forall|t: ComponentType|
                t != component.spec_component_type() ==> #[trigger] final(self).component_of(r, t)
                    is None,
            final(self).spec_components()@ == old(self).spec_components()@.insert(
                component.spec_component_type(),
                old(self).values_of(component.spec_component_type()).push(component),
            ),
            storages_grow(old(self).spec_components()@, final(self).spec_components()@),
            final(self).spec_locations()@ == old(self).spec_locations()@.insert(
                r.0,
                seq![
                    EntityLocation(
                        final(self).spec_archetypes().entity_index(r.0) as u32,
                        old(self).values_of(component.spec_component_type()).len() as usize,
                    ),
                ],
            ),
            final(self).layouts() == old(self).layouts().insert(
                seq![component.spec_component_type()],
            ),
            final(self).archetype_count() == old(self).archetype_count() + if old(
                self,
            ).layouts().contains(seq![component.spec_component_type()]) {
                0int
            } else {
                1int
            },
            preserves_others(old(self).spec_archetypes(), final(self).spec_archetypes(), r.0),
            final(self).keeps_entities(*old(self)),
    {
        let ghost w0 = *self;
        let entity = Entity(self.entity_id);
        let component_type = component.component_type();

        let mut layout = EntityLayout::new();
        layout.register_component(component_type);
        assert(layout@ == seq![component_type]);

        assert(!self.archetypes.has_entity(entity.0)) by {
            assert(!self.locations@.contains_key(entity.0));
        }
        let index = self.archetypes.assign_to_layout(&entity, layout);

        let storage = self.components.get_storage_mut(component_type);
        let component_index = storage.push_component(component);

        let location = EntityLocation::new(index, component_index);
        let mut locations: Vec<EntityLocation> = Vec::new();
        locations.push(location);
        self.locations.insert(entity, locations);
        self.entity_id = self.entity_id + 1;

        proof {
            let id = entity.0;
            let t = component_type;
            let a0 = w0.archetypes;
            let a1 = self.archetypes;
            let c0 = w0.components@;
            let c1 = self.components@;
            let l1 = self.locations@;
            let single = seq![t];
            assert(c1 == c0.insert(t, w0.components.values_of(t).push(component)));
            assert(storages_grow(c0, c1)) by {
                assert forall|u: ComponentType| #[trigger] c0.contains_key(u) implies c1.contains_key(u)
                    && c0[u].is_prefix_of(c1[u]) by {
                    if u == t {
                        assert(w0.components.values_of(u) == c0[u]);
                    }
                }
            }
            assert(l1[id] == seq![location]);
            assert(locations_valid(single, l1[id], c1));
            assert(single[0] == t);
            assert(single.contains(t));
            crate::archetype::lemma_first_index_unique(single, t, 0);
            assert(lookup(single, l1[id], c1, t) == Some(component));
            assert forall|u: ComponentType| u != t implies #[trigger] lookup(single, l1[id], c1, u)
                is None by {
                if single.contains(u) {
                    let i = choose|i: int| 0 <= i < single.len() && single[i] == u;
                    assert(i == 0);
                }
            }
            assert forall|x: u32| #[trigger] l1.contains_key(x) == a1.has_entity(x) by {
                if x != id {
                    assert(a1.has_entity(x) == a0.has_entity(x));
                }
            }
            assert forall|x: u32| x != id && a0.has_entity(x) implies #[trigger] a1.entity_layout(x)
                == a0.entity_layout(x) by {
                assert(a1.entity_index(x) == a0.entity_index(x));
                lemma_entity_index(a0, a0.entity_index(x), x);
            }
            assert forall|x: u32| #[trigger] l1.contains_key(x) implies locations_valid(
                a1.entity_layout(x),
                l1[x],
                c1,
            ) by {
                if x != id {
                    assert(w0.locations@.contains_key(x));
                    lemma_lookup_grow(a0.entity_layout(x), w0.locations@[x], c0, c1);
                }
            }
            assert forall|e: Entity| w0.alive(e) implies #[trigger] self.layout_of(e) == w0.layout_of(e) by {
                assert(w0.locations@.contains_key(e.0));
            }
            assert forall|e: Entity, u: ComponentType| w0.alive(e) implies #[trigger] self.component_of(e, u)
                == w0.component_of(e, u) by {
                assert(w0.locations@.contains_key(e.0));
                lemma_lookup_grow(a0.entity_layout(e.0), w0.locations@[e.0], c0, c1);
            }
        }
        entity
    }

    /// Adds a component to an existing entity: its layout gains the
    /// component's type at the end and it moves to that layout's archetype.
    pub fn extend(&mut self, entity: &Entity, component: C)
        requires
            old(self).wf(),
            old(self).alive(*entity),
            old(self).archetype_count() < u32::MAX,
        ensures
            final(self).wf(),
            final(self).entity_count() == old(self).entity_count(),
            final(self).layout_of(*entity) == old(self).layout_of(*entity).push(
                component.spec_component_type(),
            ),
            forall|t: ComponentType| #[trigger]
                final(self).component_of(*entity, t) == if t == component.spec_component_type()
                    && !old(self).layout_of(*entity).contains(t) {
                    Some(component)
                } else {
                    old(self).component_of(*entity, t)
                },
            forall|e: Entity| #[trigger]
                old(self).alive(e) && e != *entity ==> final(self).layout_of(e) == old(
                    self,
                ).layout_of(e),
            forall|e: Entity, t: ComponentType|
                old(self).alive(e) && e != *entity ==> #[trigger] final(self).component_of(e, t)
                    == old(self).component_of(e, t),
            component_added(
                old(self).spec_archetypes(),
                old(self).spec_components(),
                old(self).spec_locations(),
                final(self).spec_archetypes(),
                final(self).spec_components(),
                final(self).spec_locations(),
                entity.0,
                component.spec_component_type(),
                component,
            ),
    {
        let ghost w0 = *self;
        proof {
            assert(self.locations@.contains_key(entity.0));
        }
        let mut entry = self.entry_mut(entity);
        entry.add_component(component);
        proof {
            assert(component_added(
                w0.archetypes,
                w0.components,
                w0.locations,
                self.archetypes,
                self.components,
                self.locations,
                entity.0,
                component.spec_component_type(),
                component,
            ));
            assert forall|e: Entity| #[trigger]
                w0.alive(e) && e != *entity implies self.layout_of(e) == w0.layout_of(e) by {
                assert(w0.locations@.contains_key(e.0));
            }
            assert forall|e: Entity, t: ComponentType|
                w0.alive(e) && e != *entity implies #[trigger] self.component_of(e, t)
                == w0.component_of(e, t) by {
                assert(w0.locations@.contains_key(e.0));
                assert(e.0 != entity.0);
            }
        }
    }
}

/// Each created entity is a member of exactly one archetype.
pub proof fn lemma_one_archetype_per_entity<C>(w: World<C>, e: Entity)
    requires
        w.wf(),
        w.alive(e),
    ensures
        exists|i: int|
            0 <= i < w.archetype_count() && #[trigger] w.spec_archetypes()@[i].members().contains(
                e.0,
            ),
        forall|i: int, j: int|
            0 <= i < w.archetype_count() && 0 <= j < w.archetype_count()
                && #[trigger] w.spec_archetypes()@[i].members().contains(e.0)
                && #[trigger] w.spec_archetypes()@[j].members().contains(e.0) ==> i == j,
        forall|i: int|
            0 <= i < w.archetype_count() && #[trigger] w.spec_archetypes()@[i].members().contains(
                e.0,
            ) ==> w.spec_archetypes()@[i].spec_layout() == w.layout_of(e),
{
    assert(w.spec_locations()@.contains_key(e.0));
    let a = w.spec_archetypes();
    assert(a@[a.entity_index(e.0)].members().contains(e.0));
}

/// There are exactly as many archetypes as distinct layouts among them.
pub proof fn lemma_archetype_count<C>(w: World<C>)
    requires
        w.wf(),
    ensures
        w.layouts().finite(),
        w.layouts().len() == w.archetype_count(),
{
    let a = w.spec_archetypes();
    let ls = a@.map_values(|x: Archetype| x.spec_layout());
    assert(ls.no_duplicates()) by {
        assert forall|i: int, j: int| 0 <= i < ls.len() && 0 <= j < ls.len() && i != j implies ls[i]
            != ls[j] by {
            assert(a@[i].spec_layout() != a@[j].spec_layout());
        }
    }
    assert(w.layouts() =~= ls.to_set()) by {
        assert forall|l: Seq<ComponentType>| w.layouts().contains(l) == ls.to_set().contains(l) by {
            if a.has_layout(l) {
                let i = choose|i: int| 0 <= i < a@.len() && #[trigger] a@[i].spec_layout() == l;
                assert(ls[i] == l);
            }
            if ls.to_set().contains(l) {
                let i = choose|i: int| 0 <= i < ls.len() && ls[i] == l;
                assert(a@[i].spec_layout() == l);
            }
        }
    }
    ls.unique_seq_to_set();
}

/// The layouts that the entities `es` have in world `w`.
pub open spec fn layouts_of_entities<C>(w: World<C>, es: Seq<Entity>) -> Set<Seq<ComponentType>> {
    Set::new(|l: Seq<ComponentType>| exists|i: int| 0 <= i < es.len() && #[trigger] w.layout_of(es[i]) == l)
}

/// Starting from a world with no archetypes, after spawning the entities `es`
/// one by one (world `ws[i + 1]` is `ws[i]` after the spawn that returned
/// `es[i]`), the archetypes are one per distinct layout of the spawned
/// entities: their number is the number of distinct layouts.
pub proof fn lemma_spawns_partition<C>(ws: Seq<World<C>>, es: Seq<Entity>)
    requires
        ws.len() == es.len() + 1,
        ws[0].wf(),
        ws[0].archetype_count() == 0,
        forall|i: int|
            0 <= i < es.len() ==> {
                &&& (#[trigger] ws[i + 1]).wf()
                &&& ws[i + 1].alive(es[i])
                &&& ws[i].entity_count() <= ws[i + 1].entity_count()
                &&& ws[i + 1].layouts() == ws[i].layouts().insert(ws[i + 1].layout_of(es[i]))
                &&& ws[i + 1].keeps_entities(ws[i])
            },
    ensures
        ws.last().layouts() == layouts_of_entities(ws.last(), es),
        ws.last().archetype_count() == layouts_of_entities(ws.last(), es).len(),
    decreases es.len(),
{
    let n = es.len() as int;
    let last = ws.last();
    if n == 0 {
        lemma_archetype_count(ws[0]);
        assert(ws[0].layouts() =~= Set::<Seq<ComponentType>>::empty()) by {
            assert(ws[0].layouts().len() == 0);
            if exists|l: Seq<ComponentType>| ws[0].layouts().contains(l) {
                let l = choose|l: Seq<ComponentType>| ws[0].layouts().contains(l);
                ws[0].layouts().lemma_len0_is_empty();
            }
        }
        assert(layouts_of_entities(last, es) =~= Set::<Seq<ComponentType>>::empty());
    } else {
        let ws0 = ws.drop_last();
        let es0 = es.drop_last();
        assert forall|i: int| 0 <= i < es0.len() implies {
            &&& (#[trigger] ws0[i + 1]).wf()
            &&& ws0[i + 1].alive(es0[i])
            &&& ws0[i].entity_count() <= ws0[i + 1].entity_count()
            &&& ws0[i + 1].layouts() == ws0[i].layouts().insert(ws0[i + 1].layout_of(es0[i]))
            &&& ws0[i + 1].keeps_entities(ws0[i])
        } by {
            assert(ws0[i + 1] == ws[i + 1]);
            assert(ws0[i] == ws[i]);
        }
        lemma_spawns_partition(ws0, es0);
        let prev = ws[n - 1];
        assert(ws0.last() == prev);
        assert(last == ws[n]);
        assert forall|k: int| 0 <= k < ws.len() - 1 implies {
            &&& ws[k].entity_count() <= (#[trigger] ws[k + 1]).entity_count()
            &&& ws[k + 1].keeps_entities(ws[k])
        } by {
            assert(0 <= k < es.len());
        }
        assert forall|i: int| 0 <= i < es0.len() implies #[trigger] last.layout_of(es[i])
            == prev.layout_of(es[i]) by {
            assert(ws[i + 1].alive(es[i]));
            lemma_kept_through(ws, i + 1, n - 1, es[i]);
            assert(last.keeps_entities(prev));
        }
        assert(last.layouts() =~= layouts_of_entities(last, es)) by {
            assert forall|l: Seq<ComponentType>| last.layouts().contains(l)
                == layouts_of_entities(last, es).contains(l) by {
                if layouts_of_entities(prev, es0).contains(l) {
                    let i = choose|i: int| 0 <= i < es0.len() && #[trigger] prev.layout_of(es0[i]) == l;
                    assert(last.layout_of(es[i]) == l);
                }
                if layouts_of_entities(last, es).contains(l) {
                    let i = choose|i: int| 0 <= i < es.len() && #[trigger] last.layout_of(es[i]) == l;
                    if i < n - 1 {
                        assert(prev.layout_of(es0[i]) == l);
                    }
                }
            }
        }
        lemma_archetype_count(last);
    }
}

/// Through steps that keep entities, an entity alive at step `i` stays alive
/// with the same layout up to step `j`.
proof fn lemma_kept_through<C>(ws: Seq<World<C>>, i: int, j: int, e: Entity)
    requires
        0 <= i <= j < ws.len(),
        ws[i].alive(e),
        forall|k: int|
            0 <= k < ws.len() - 1 ==> {
                &&& ws[k].entity_count() <= (#[trigger] ws[k + 1]).entity_count()
                &&& ws[k + 1].keeps_entities(ws[k])
            },
    ensures
        ws[j].alive(e),
        ws[j].layout_of(e) == ws[i].layout_of(e),
    decreases j - i,
{
    if i < j {
        lemma_kept_through(ws, i, j - 1, e);
        let k = j - 1;
        assert(ws[k].entity_count() <= ws[k + 1].entity_count());
        assert(ws[k + 1].keeps_entities(ws[k]));
    }
}

/// The single-type layouts that spawning the values `cs` induces.
pub open spec fn spawned_layouts<C: Component>(cs: Seq<C>) -> Set<Seq<ComponentType>> {
    Set::new(
        |l: Seq<ComponentType>|
            exists|i: int| 0 <= i < cs.len() && l == seq![(#[trigger] cs[i]).spec_component_type()],
    )
}

/// Starting from a world with no archetypes, after spawning the values `cs`
/// one by one (world `ws[i + 1]` is `ws[i]` after `spawn(cs[i])` returned
/// `es[i]`), there is one archetype per distinct component type spawned: the
/// layouts are exactly the single-type layouts of the values' types, and the
/// archetype count is their number.
pub proof fn lemma_spawned_types_partition<C: Component>(
    ws: Seq<World<C>>,
    es: Seq<Entity>,
    cs: Seq<C>,
)
    requires
        ws.len() == es.len() + 1,
        cs.len() == es.len(),
        ws[0].wf(),
        ws[0].archetype_count() == 0,
        forall|i: int|
            0 <= i < es.len() ==> {
                &&& (#[trigger] ws[i + 1]).wf()
                &&& ws[i + 1].alive(es[i])
                &&& ws[i].entity_count() <= ws[i + 1].entity_count()
                &&& ws[i + 1].layout_of(es[i]) == seq![cs[i].spec_component_type()]
                &&& ws[i + 1].layouts() == ws[i].layouts().insert(ws[i + 1].layout_of(es[i]))
                &&& ws[i + 1].keeps_entities(ws[i])
            },
    ensures
        ws.last().layouts() == spawned_layouts(cs),
        ws.last().archetype_count() == spawned_layouts(cs).len(),
{
    lemma_spawns_partition(ws, es);
    let n = es.len() as int;
    let last = ws.last();
    assert forall|k: int| 0 <= k < ws.len() - 1 implies {
        &&& ws[k].entity_count() <= (#[trigger] ws[k + 1]).entity_count()
        &&& ws[k + 1].keeps_entities(ws[k])
    } by {
        assert(0 <= k < es.len());
    }
    assert forall|i: int| 0 <= i < n implies #[trigger] last.layout_of(es[i]) == seq![
        cs[i].spec_component_type(),
    ] by {
        assert(ws[i + 1].alive(es[i]));
        lemma_kept_through(ws, i + 1, n, es[i]);
    }
    assert(layouts_of_entities(last, es) =~= spawned_layouts(cs)) by {
        assert forall|l: Seq<ComponentType>| layouts_of_entities(last, es).contains(l)
            == spawned_layouts(cs).contains(l) by {
            if layouts_of_entities(last, es).contains(l) {
                let i = choose|i: int| 0 <= i < es.len() && #[trigger] last.layout_of(es[i]) == l;
                assert(l == seq![cs[i].spec_component_type()]);
            }
            if spawned_layouts(cs).contains(l) {
                let i = choose|i: int|
                    0 <= i < cs.len() && l == seq![(#[trigger] cs[i]).spec_component_type()];
                assert(last.layout_of(es[i]) == l);
            }
        }
    }
}

} // verus!
