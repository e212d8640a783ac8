use vstd::prelude::*;

use crate::storage::ComponentType;

verus! {

/// The first position at which `x` occurs in `s`.
pub open spec fn is_first_index<A>(s: Seq<A>, x: A, i: int) -> bool {
    &&& 0 <= i < s.len()
    &&& s[i] == x
    &&& forall|j: int| 0 <= j < i ==> s[j] != x
}

/// The position of the first occurrence of `x` in `s` (meaningful when `s.contains(x)`).
pub open spec fn first_index<A>(s: Seq<A>, x: A) -> int {
    choose|i: int| is_first_index(s, x, i)
}

/// Any index that is a first occurrence is the one `first_index` picks.
pub proof fn lemma_first_index_unique<A>(s: Seq<A>, x: A, i: int)
    requires
        is_first_index(s, x, i),
    ensures
        first_index(s, x) == i,
{
    let k = first_index(s, x);
    assert(is_first_index(s, x, k));
    if k < i {
        assert(s[k] != x);
    } else if i < k {
        assert(s[i] != x);
    }
}

/// A value that occurs in a sequence has a first occurrence.
pub proof fn lemma_first_index_exists<A>(s: Seq<A>, x: A)
    requires
        s.contains(x),
    ensures
        is_first_index(s, x, first_index(s, x)),
{
    s.index_of_first_ensures(x);
    let i = s.index_of_first(x)->Some_0;
    assert(is_first_index(s, x, i));
}

/// Appending an element keeps the first occurrence of a value already present.
pub proof fn lemma_first_index_push<A>(s: Seq<A>, x: A, y: A)
    requires
        s.contains(x),
    ensures
        s.push(y).contains(x),
        first_index(s.push(y), x) == first_index(s, x),
{
    lemma_first_index_exists(s, x);
    let i = first_index(s, x);
    assert(s.push(y)[i] == x);
    assert(is_first_index(s.push(y), x, i));
    lemma_first_index_unique(s.push(y), x, i);
}

/// A lightweight identifier of a logical object; it owns no data.
#[derive(Debug, PartialEq, Eq, Hash, Clone, Copy, Structural)]
pub struct Entity(pub u32);

impl Entity {
    pub fn id(&self) -> (r: u32)
        ensures
            r == self.0,
    {
        self.0
    }
}

/// Dense, registry-assigned identifier of an archetype.
pub type ArchetypeIndex = u32;

/// The ordered sequence of component types that gives an archetype its shape.
#[derive(Debug, Clone)]
pub struct EntityLayout {
    layout: Vec<ComponentType>,
}

impl View for EntityLayout {
    type V = Seq<ComponentType>;

    closed spec fn view(&self) -> Seq<ComponentType> {
        self.layout@
    }
}

impl EntityLayout {
    pub fn new() -> (r: Self)
        ensures
            r@ == Seq::<ComponentType>::empty(),
    {
        EntityLayout { layout: Vec::new() }
    }

    /// Appends a component type; duplicates are kept.
    pub fn register_component(&mut self, component_type: ComponentType)
        ensures
            final(self)@ == old(self)@.push(component_type),
    {
        self.layout.push(component_type);
    }

    pub fn containes_type(&self, type_id: ComponentType) -> (r: bool)
        ensures
            r == self@.contains(type_id),
    {
        self.position(type_id).is_some()
    }

    /// Where `type_id` first occurs in the layout.
    pub fn position(&self, type_id: ComponentType) -> (r: Option<usize>)
        ensures
            match r {
                Some(i) => is_first_index(self@, type_id, i as int),
                None => !self@.contains(type_id),
            },
    {
        let mut i: usize = 0;
        while i < self.layout.len()
            invariant
                i <= self.layout@.len(),
                forall|j: int| 0 <= j < i ==> self.layout@[j] != type_id,
            decreases self.layout@.len() - i,
        {
            if self.layout[i] == type_id {
                return Some(i);
            }
            i = i + 1;
        }
        None
    }

    pub fn len(&self) -> (r: usize)
        ensures
            r == self@.len(),
    {
        self.layout.len()
    }

    /// A new layout holding this one's types followed by `component_type`.
    pub fn extended(&self, component_type: ComponentType) -> (r: EntityLayout)
        ensures
            r@ == self@.push(component_type),
    {
        let mut types: Vec<ComponentType> = Vec::new();
        let mut i: usize = 0;
        while i < self.layout.len()
            invariant
                i <= self.layout@.len(),
                types@ == self.layout@.subrange(0, i as int),
            decreases self.layout@.len() - i,
        {
            types.push(self.layout[i]);
            i = i + 1;
        }
        assert(types@ == self.layout@);
        types.push(component_type);
        EntityLayout { layout: types }
    }

    /// The component types in insertion order, consuming the layout.
    pub fn into_types(self) -> (r: Vec<ComponentType>)
        ensures
            r@ == self@,
    {
        self.layout
    }
}

impl PartialEq for EntityLayout {
    fn eq(&self, other: &EntityLayout) -> (r: bool) {
        if self.layout.len() != other.layout.len() {
            return false;
        }
        let mut i: usize = 0;
        while i < self.layout.len()
            invariant
                self.layout@.len() == other.layout@.len(),
                i <= self.layout@.len(),
                forall|j: int| 0 <= j < i ==> self.layout@[j] == other.layout@[j],
            decreases self.layout@.len() - i,
        {
            if self.layout[i] != other.layout[i] {
                return false;
            }
            i = i + 1;
        }
        assert(self.layout@ =~= other.layout@);
        true
    }
}

impl vstd::std_specs::cmp::PartialEqSpecImpl for EntityLayout {
    open spec fn obeys_eq_spec() -> bool {
        true
    }

    open spec fn eq_spec(&self, other: &EntityLayout) -> bool {
        self@ == other@
    }
}

/// A filter over layouts, for a query layer that scans archetypes.
pub trait LayoutFilter {
    fn matches_layout(&self, other: EntityLayout);
}

/// A group of entities that all share one exact layout; it tracks membership only.
#[derive(Debug, Clone)]
pub struct Archetype {
    index: ArchetypeIndex,
    entitys: Vec<u32>,
    pub layout: EntityLayout,
}

impl Archetype {
    pub closed spec fn spec_index(&self) -> ArchetypeIndex {
        self.index
    }

    /// The component types of this archetype's layout.
    pub closed spec fn spec_layout(&self) -> Seq<ComponentType> {
        self.layout@
    }

    /// The identifiers of the member entities, in order of assignment.
    pub closed spec fn members(&self) -> Seq<u32> {
        self.entitys@
    }

    pub fn new(index: ArchetypeIndex, layout: EntityLayout) -> (r: Self)
        ensures
            r.spec_index() == index,
            r.members() == Seq::<u32>::empty(),
            r.spec_layout() == layout@,
    {
        Archetype { index, entitys: Vec::new(), layout }
    }

    pub fn layout(&self) -> (r: &EntityLayout)
        ensures
            r@ == self.spec_layout(),
    {
        &self.layout
    }

    /// Adds the entity to the members; the caller makes sure it is not one already.
    pub fn assigne_entity(&mut self, entity: &Entity)
        ensures
            final(self).members() == old(self).members().push(entity.0),
            final(self).spec_index() == old(self).spec_index(),
            final(self).spec_layout() == old(self).spec_layout(),
    {
        self.entitys.push(entity.id());
    }

    /// Removes the entity's first occurrence from the members.
    pub fn unassigne_entity(&mut self, target_entity: &Entity)
        requires
            old(self).members().contains(target_entity.0),
        ensures
            final(self).members() == old(self).members().remove(
                first_index(old(self).members(), target_entity.0),
            ),
            final(self).spec_index() == old(self).spec_index(),
            final(self).spec_layout() == old(self).spec_layout(),
    {
        let id = target_entity.id();
        let mut i: usize = 0;
        while i < self.entitys.len()
            invariant
                *self == *old(self),
                id == target_entity.0,
                self.entitys@.contains(id),
                i <= self.entitys@.len(),
                forall|j: int| 0 <= j < i ==> self.entitys@[j] != id,
            decreases self.entitys@.len() - i,
        {
            if self.entitys[i] == id {
                proof {
                    lemma_first_index_unique(self.entitys@, id, i as int);
                }
                self.entitys.remove(i);
                return;
            }
            i = i + 1;
        }
    }

    pub fn contains_entity(&self, entity: &Entity) -> (r: bool)
        ensures
            r == self.members().contains(entity.0),
    {
        let mut i: usize = 0;
        while i < self.entitys.len()
            invariant
                i <= self.entitys@.len(),
                forall|j: int| 0 <= j < i ==> self.entitys@[j] != entity.0,
            decreases self.entitys@.len() - i,
        {
            if self.entitys[i] == entity.0 {
                return true;
            }
            i = i + 1;
        }
        false
    }

    pub fn index(&self) -> (r: ArchetypeIndex)
        ensures
            r == self.spec_index(),
    {
        self.index
    }
}

impl PartialEq for Archetype {
    fn eq(&self, other: &Archetype) -> (r: bool) {
        if self.index != other.index || self.entitys.len() != other.entitys.len() {
            return false;
        }
        let mut i: usize = 0;
        while i < self.entitys.len()
            invariant
                self.entitys@.len() == other.entitys@.len(),
                i <= self.entitys@.len(),
                forall|j: int| 0 <= j < i ==> self.entitys@[j] == other.entitys@[j],
            decreases self.entitys@.len() - i,
        {
            if self.entitys[i] != other.entitys[i] {
                return false;
            }
            i = i + 1;
        }
        assert(self.entitys@ =~= other.entitys@);
        self.layout == other.layout
    }
}

impl vstd::std_specs::cmp::PartialEqSpecImpl for Archetype {
    open spec fn obeys_eq_spec() -> bool {
        true
    }

    open spec fn eq_spec(&self, other: &Archetype) -> bool {
        &&& self.spec_index() == other.spec_index()
        &&& self.members() == other.members()
        &&& self.spec_layout() == other.spec_layout()
    }
}

/// Owns every archetype and hands out their indices.
#[derive(Debug)]
pub struct ArchetypeStorage {
    ids: ArchetypeIndex,
    archetypes: Vec<Archetype>,
}

impl View for ArchetypeStorage {
    type V = Seq<Archetype>;

    closed spec fn view(&self) -> Seq<Archetype> {
        self.archetypes@
    }
}

impl ArchetypeStorage {
    /// The index the next created archetype receives.
    pub closed spec fn next_index(&self) -> nat {
        self.ids as nat
    }

    /// Some archetype has exactly the layout `l`.
    pub open spec fn has_layout(&self, l: Seq<ComponentType>) -> bool {
        exists|i: int| 0 <= i < self@.len() && #[trigger] self@[i].spec_layout() == l
    }

    /// The position of the archetype whose layout is `l`.
    pub open spec fn layout_index(&self, l: Seq<ComponentType>) -> int {
        choose|i: int| 0 <= i < self@.len() && #[trigger] self@[i].spec_layout() == l
    }

    /// Some archetype lists the entity `id` as a member.
    pub open spec fn has_entity(&self, id: u32) -> bool {
        exists|i: int| 0 <= i < self@.len() && #[trigger] self@[i].members().contains(id)
    }

    /// The position of the archetype that lists `id` as a member.
    pub open spec fn entity_index(&self, id: u32) -> int {
        choose|i: int| 0 <= i < self@.len() && #[trigger] self@[i].members().contains(id)
    }

    /// The set of layouts of all archetypes.
    pub open spec fn layouts(&self) -> Set<Seq<ComponentType>> {
        Set::new(|l: Seq<ComponentType>| self.has_layout(l))
    }

    /// Indices are dense and match positions, at most one archetype has a given
    /// layout, and an entity is a member of at most one archetype, at most once.
    pub open spec fn wf(&self) -> bool {
        &&& self.next_index() == self@.len()
        &&& self@.len() <= u32::MAX
        &&& forall|i: int| 0 <= i < self@.len() ==> #[trigger] self@[i].spec_index() == i
        &&& forall|i: int| 0 <= i < self@.len() ==> #[trigger] self@[i].members().no_duplicates()
        &&& forall|i: int, j: int|
            0 <= i < self@.len() && 0 <= j < self@.len() && i != j ==> #[trigger] self@[i].spec_layout()
                != #[trigger] self@[j].spec_layout()
        &&& forall|i: int, j: int, id: u32|
            0 <= i < self@.len() && 0 <= j < self@.len() && #[trigger] self@[i].members().contains(id)
                && #[trigger] self@[j].members().contains(id) ==> i == j
    }

    pub fn new() -> (r: Self)
        ensures
            r.wf(),
            r@ == Seq::<Archetype>::empty(),
    {
        ArchetypeStorage { ids: 0, archetypes: Vec::new() }
    }

    /// How many archetypes exist.
    pub fn len(&self) -> (r: usize)
        ensures
            r == self@.len(),
    {
        self.archetypes.len()
    }

    /// Adds an empty archetype with the next index and the given layout.
    pub fn create_from_layout(&mut self, layout: EntityLayout) -> (r: &mut Archetype)
        requires
            old(self).wf(),
            old(self)@.len() < u32::MAX,
        ensures
            r.spec_index() == old(self)@.len(),
            r.members() == Seq::<u32>::empty(),
            r.spec_layout() == layout@,
            final(self)@ == old(self)@.push(*final(r)),
            final(self).next_index() == old(self).next_index() + 1,
    {
        let index = self.ids;
        let archetype = Archetype::new(index, layout);
        self.archetypes.push(archetype);
        self.ids = self.ids + 1;
        self.get_mut(index)
    }

    pub fn get(&self, index: ArchetypeIndex) -> (r: &Archetype)
        requires
            index < self@.len(),
        ensures
            *r == self@[index as int],
    {
        &self.archetypes[index as usize]
    }

    pub fn get_mut(&mut self, index: ArchetypeIndex) -> (r: &mut Archetype)
        requires
            index < old(self)@.len(),
        ensures
            *r == old(self)@[index as int],
            final(self)@ == old(self)@.update(index as int, *final(r)),
            final(self).next_index() == old(self).next_index(),
    {
        &mut self.archetypes[index as usize]
    }

    /// Where the archetype with the given layout stands, if there is one.
    fn position_of_layout(&self, layout: &EntityLayout) -> (r: Option<usize>)
        requires
            self.wf(),
        ensures
            match r {
                Some(i) => self.has_layout(layout@) && i == self.layout_index(layout@),
                None => !self.has_layout(layout@),
            },
    {
        let mut i: usize = 0;
        while i < self.archetypes.len()
            invariant
                self.wf(),
                i <= self@.len(),
                forall|j: int| 0 <= j < i ==> self@[j].spec_layout() != layout@,
            decreases self@.len() - i,
        {
            if self.archetypes[i].layout == *layout {
                assert(self@[i as int].spec_layout() == layout@);
                assert(self@[self.layout_index(layout@)].spec_layout() == layout@);
                return Some(i);
            }
            i = i + 1;
        }
        None
    }

    /// Where the archetype that holds the entity stands, if there is one.
    fn position_of_entity(&self, entity: &Entity) -> (r: Option<usize>)
        requires
            self.wf(),
        ensures
            match r {
                Some(i) => self.has_entity(entity.0) && i == self.entity_index(entity.0),
                None => !self.has_entity(entity.0),
            },
    {
        let mut i: usize = 0;
        while i < self.archetypes.len()
            invariant
                self.wf(),
                i <= self@.len(),
                forall|j: int| 0 <= j < i ==> !self@[j].members().contains(entity.0),
            decreases self@.len() - i,
        {
            if self.archetypes[i].contains_entity(entity) {
                assert(self@[self.entity_index(entity.0)].members().contains(entity.0));
                return Some(i);
            }
            i = i + 1;
        }
        None
    }

    /// The archetype whose layout is exactly `layout`, if any.
    pub fn find_from_layout(&self, layout: &EntityLayout) -> (r: Option<&Archetype>)
        requires
            self.wf(),
        ensures
            match r {
                Some(a) => self.has_layout(layout@) && *a == self@[self.layout_index(layout@)],
                None => !self.has_layout(layout@),
            },
    {
        match self.position_of_layout(layout) {
            Some(i) => Some(&self.archetypes[i]),
            None => None,
        }
    }

    /// The archetype whose layout is exactly `layout`, if any, for mutation.
    pub fn find_from_layout_mut(&mut self, layout: &EntityLayout) -> (r: Option<&mut Archetype>)
        requires
            old(self).wf(),
        ensures
            final(self).next_index() == old(self).next_index(),
            match r {
                Some(a) => {
                    &&& old(self).has_layout(layout@)
                    &&& *a == old(self)@[old(self).layout_index(layout@)]
                    &&& final(self)@ == old(self)@.update(old(self).layout_index(layout@), *final(a))
                },
                None => !old(self).has_layout(layout@) && final(self)@ == old(self)@,
            },
    {
        match self.position_of_layout(layout) {
            Some(i) => Some(&mut self.archetypes[i]),
            None => None,
        }
    }

    /// The archetype the entity is a member of, if any.
    pub fn find_from_entity(&self, entity: &Entity) -> (r: Option<&Archetype>)
        requires
            self.wf(),
        ensures
            match r {
                Some(a) => self.has_entity(entity.0) && *a == self@[self.entity_index(entity.0)],
                None => !self.has_entity(entity.0),
            },
    {
        match self.position_of_entity(entity) {
            Some(i) => Some(&self.archetypes[i]),
            None => None,
        }
    }

    /// The archetype the entity is a member of, if any, for mutation.
    pub fn find_from_entity_mut(&mut self, entity: &Entity) -> (r: Option<&mut Archetype>)
        requires
            old(self).wf(),
        ensures
            final(self).next_index() == old(self).next_index(),
            match r {
                Some(a) => {
                    &&& old(self).has_entity(entity.0)
                    &&& *a == old(self)@[old(self).entity_index(entity.0)]
                    &&& final(self)@ == old(self)@.update(
                        old(self).entity_index(entity.0),
                        *final(a),
                    )
                },
                None => !old(self).has_entity(entity.0) && final(self)@ == old(self)@,
            },
    {
        match self.position_of_entity(entity) {
            Some(i) => Some(&mut self.archetypes[i]),
            None => None,
        }
    }
    /// The layout of the archetype that holds `id`.
    pub open spec fn entity_layout(&self, id: u32) -> Seq<ComponentType> {
        self@[self.entity_index(id)].spec_layout()
    }

    /// Finds the archetype with `layout`, creating it if there is none, and makes
    /// the entity, which no archetype holds yet, one of its members.
    pub fn assign_to_layout(&mut self, entity: &Entity, layout: EntityLayout) -> (r:
        ArchetypeIndex)
        requires
            old(self).wf(),
            !old(self).has_entity(entity.0),
            old(self)@.len() < u32::MAX,
        ensures
            final(self).wf(),
            final(self).has_entity(entity.0),
            final(self).entity_index(entity.0) == r,
            final(self).entity_layout(entity.0) == layout@,
            final(self).layouts() == old(self).layouts().insert(layout@),
            final(self)@.len() == old(self)@.len() + if old(self).has_layout(layout@) {
                0int
            } else {
                1int
            },
            preserves_others(*old(self), *final(self), entity.0),
    {
        let ghost s0 = *self;
        let ghost l = layout@;
        match self.find_from_layout_mut(&layout) {
            Some(archetype) => {
                archetype.assigne_entity(entity);
                let index = archetype.index();
                proof {
                    lemma_assign_wf(s0, *self, entity.0, s0.layout_index(l));
                    lemma_entity_index(*self, index as int, entity.0);
                    assert(self.layouts() =~= s0.layouts().insert(l)) by {
                        assert(s0.has_layout(l));
                        assert forall|m: Seq<ComponentType>| self.has_layout(m) == s0.has_layout(m) by {
                            if self.has_layout(m) {
                                let i = choose|i: int| 0 <= i < self@.len() && #[trigger] self@[i].spec_layout() == m;
                                assert(s0@[i].spec_layout() == m);
                            }
                            if s0.has_layout(m) {
                                let i = choose|i: int| 0 <= i < s0@.len() && #[trigger] s0@[i].spec_layout() == m;
                                assert(self@[i].spec_layout() == m);
                            }
                        }
                    }
                }
                index
            },
            None => {
                let archetype = self.create_from_layout(layout);
                archetype.assigne_entity(entity);
                let index = archetype.index();
                proof {
                    lemma_push_wf(s0, *self, entity.0);
                    lemma_entity_index(*self, index as int, entity.0);
                    assert(self.layouts() =~= s0.layouts().insert(l)) by {
                        assert(self@[index as int].spec_layout() == l);
                        assert forall|m: Seq<ComponentType>| self.has_layout(m) == (s0.has_layout(m) || m == l) by {
                            if self.has_layout(m) && m != l {
                                let i = choose|i: int| 0 <= i < self@.len() && #[trigger] self@[i].spec_layout() == m;
                                assert(i != index as int);
                                assert(s0@[i].spec_layout() == m);
                            }
                            if s0.has_layout(m) {
                                let i = choose|i: int| 0 <= i < s0@.len() && #[trigger] s0@[i].spec_layout() == m;
                                assert(self@[i].spec_layout() == m);
                            }
                        }
                    }
                }
                index
            },
        }
    }
}

/// Entities other than `id` keep their membership, archetype and layout, and
/// existing archetypes keep their layouts.
pub open spec fn preserves_others(s0: ArchetypeStorage, s1: ArchetypeStorage, id: u32) -> bool {
    &&& s0@.len() <= s1@.len()
    &&& forall|i: int| 0 <= i < s0@.len() ==> #[trigger] s1@[i].spec_layout() == s0@[i].spec_layout()
    &&& forall|x: u32| x != id ==> #[trigger] s1.has_entity(x) == s0.has_entity(x)
    &&& forall|x: u32|
        x != id && s0.has_entity(x) ==> #[trigger] s1.entity_index(x) == s0.entity_index(x)
}

/// In a well-formed registry, the archetype listing an entity is the one
/// `entity_index` names.
pub proof fn lemma_entity_index(s: ArchetypeStorage, i: int, id: u32)
    requires
        s.wf(),
        0 <= i < s@.len(),
        s@[i].members().contains(id),
    ensures
        s.has_entity(id),
        s.entity_index(id) == i,
{
    assert(s@[s.entity_index(id)].members().contains(id));
}

/// Removing one occurrence from a list without duplicates leaves no duplicates
/// and drops exactly that value.
proof fn lemma_remove_member(s: Seq<u32>, i: int)
    requires
        0 <= i < s.len(),
        s.no_duplicates(),
    ensures
        s.remove(i).no_duplicates(),
        forall|x: u32| #[trigger] s.remove(i).contains(x) <==> (s.contains(x) && x != s[i]),
{
    s.remove_ensures(i);
    let r = s.remove(i);
    assert forall|x: u32| #[trigger] r.contains(x) <==> (s.contains(x) && x != s[i]) by {
        if r.contains(x) {
            let j = choose|j: int| 0 <= j < r.len() && r[j] == x;
            if j < i {
                assert(s[j] == x);
            } else {
                assert(s[j + 1] == x);
            }
        }
        if s.contains(x) && x != s[i] {
            let j = choose|j: int| 0 <= j < s.len() && s[j] == x;
            if j < i {
                assert(r[j] == x);
            } else {
                assert(j != i);
                assert(r[j - 1] == x);
            }
        }
    }
}

/// Taking an entity out of its archetype keeps the registry well formed; then
/// no archetype holds it, and nothing else changes.
pub proof fn lemma_unassign_wf(s0: ArchetypeStorage, s1: ArchetypeStorage, id: u32)
    requires
        s0.wf(),
        s0.has_entity(id),
        s1.next_index() == s0.next_index(),
        s1@ == s0@.update(s0.entity_index(id), s1@[s0.entity_index(id)]),
        s1@[s0.entity_index(id)].spec_index() == s0@[s0.entity_index(id)].spec_index(),
        s1@[s0.entity_index(id)].spec_layout() == s0@[s0.entity_index(id)].spec_layout(),
        s1@[s0.entity_index(id)].members() == s0@[s0.entity_index(id)].members().remove(
            first_index(s0@[s0.entity_index(id)].members(), id),
        ),
    ensures
        s1.wf(),
        !s1.has_entity(id),
        s1.layouts() == s0.layouts(),
        s1@.len() == s0@.len(),
        preserves_others(s0, s1, id),
{
    let k = s0.entity_index(id);
    let m = s0@[k].members();
    assert(m.contains(id));
    lemma_first_index_exists(m, id);
    lemma_remove_member(m, first_index(m, id));
    assert forall|i: int, x: u32| 0 <= i < s1@.len() implies #[trigger] s1@[i].members().contains(x)
        <==> (s0@[i].members().contains(x) && x != id) by {
        if i != k {
            if s0@[i].members().contains(x) {
                assert(s0@[k].members().contains(id));
                if x == id {
                    assert(i == k);
                }
            }
        }
    }
    assert(s1.wf());
    if s1.has_entity(id) {
        let i = choose|i: int| 0 <= i < s1@.len() && #[trigger] s1@[i].members().contains(id);
        assert(s1@[i].members().contains(id));
    }
    assert forall|x: u32| x != id implies #[trigger] s1.has_entity(x) == s0.has_entity(x) by {
        if s1.has_entity(x) {
            let i = choose|i: int| 0 <= i < s1@.len() && #[trigger] s1@[i].members().contains(x);
            assert(s0@[i].members().contains(x));
        }
        if s0.has_entity(x) {
            let i = choose|i: int| 0 <= i < s0@.len() && #[trigger] s0@[i].members().contains(x);
            assert(s1@[i].members().contains(x));
        }
    }
    assert forall|x: u32| x != id && s0.has_entity(x) implies #[trigger] s1.entity_index(x)
        == s0.entity_index(x) by {
        let i = s0.entity_index(x);
        assert(s0@[i].members().contains(x));
        assert(s1@[i].members().contains(x));
        lemma_entity_index(s1, i, x);
    }
    assert forall|l: Seq<ComponentType>| s1.has_layout(l) == s0.has_layout(l) by {
        if s1.has_layout(l) {
            let i = choose|i: int| 0 <= i < s1@.len() && #[trigger] s1@[i].spec_layout() == l;
            assert(s0@[i].spec_layout() == l);
        }
        if s0.has_layout(l) {
            let i = choose|i: int| 0 <= i < s0@.len() && #[trigger] s0@[i].spec_layout() == l;
            assert(s1@[i].spec_layout() == l);
        }
    }
    assert(s1.layouts() =~= s0.layouts());
}

/// Adding an entity that no archetype holds to an existing archetype keeps the
/// registry well formed.
proof fn lemma_assign_wf(s0: ArchetypeStorage, s1: ArchetypeStorage, id: u32, j: int)
    requires
        s0.wf(),
        !s0.has_entity(id),
        0 <= j < s0@.len(),
        s1.next_index() == s0.next_index(),
        s1@ == s0@.update(j, s1@[j]),
        s1@[j].spec_index() == s0@[j].spec_index(),
        s1@[j].spec_layout() == s0@[j].spec_layout(),
        s1@[j].members() == s0@[j].members().push(id),
    ensures
        s1.wf(),
        s1@[j].members().contains(id),
        preserves_others(s0, s1, id),
{
    assert(s1@[j].members().last() == id);
    assert forall|i: int, x: u32| 0 <= i < s1@.len() implies #[trigger] s1@[i].members().contains(x)
        <==> (s0@[i].members().contains(x) || (i == j && x == id)) by {
        if i == j && s1@[i].members().contains(x) && x != id {
            let p = choose|p: int| 0 <= p < s1@[i].members().len() && s1@[i].members()[p] == x;
            assert(s0@[i].members()[p] == x);
        }
        if i == j && s0@[i].members().contains(x) {
            let p = choose|p: int| 0 <= p < s0@[i].members().len() && s0@[i].members()[p] == x;
            assert(s1@[i].members()[p] == x);
        }
    }
    assert forall|i: int| 0 <= i < s1@.len() implies #[trigger] s1@[i].members().no_duplicates() by {
        if i == j {
            let m = s1@[j].members();
            assert forall|a: int, b: int| 0 <= a < m.len() && 0 <= b < m.len() && a != b implies m[a]
                != m[b] by {
                let m0 = s0@[j].members();
                assert(s0@[j].members().no_duplicates());
                if a == m.len() - 1 {
                    assert(m[b] == m0[b]);
                    assert(m0.contains(m[b]));
                    if m[b] == id {
                        assert(s0@[j].members().contains(id));
                    }
                } else if b == m.len() - 1 {
                    assert(m[a] == m0[a]);
                    assert(m0.contains(m[a]));
                    if m[a] == id {
                        assert(s0@[j].members().contains(id));
                    }
                } else {
                    assert(m[a] == m0[a] && m[b] == m0[b]);
                }
            }
        }
    }
    assert(s1.wf());
    assert forall|x: u32| x != id implies #[trigger] s1.has_entity(x) == s0.has_entity(x) by {
        if s1.has_entity(x) {
            let i = choose|i: int| 0 <= i < s1@.len() && #[trigger] s1@[i].members().contains(x);
            assert(s0@[i].members().contains(x));
        }
        if s0.has_entity(x) {
            let i = choose|i: int| 0 <= i < s0@.len() && #[trigger] s0@[i].members().contains(x);
            assert(s1@[i].members().contains(x));
        }
    }
    assert forall|x: u32| x != id && s0.has_entity(x) implies #[trigger] s1.entity_index(x)
        == s0.entity_index(x) by {
        let i = s0.entity_index(x);
        assert(s0@[i].members().contains(x));
        assert(s1@[i].members().contains(x));
        lemma_entity_index(s1, i, x);
    }
}

/// Appending an archetype with a new layout whose one member no archetype held
/// keeps the registry well formed.
proof fn lemma_push_wf(s0: ArchetypeStorage, s1: ArchetypeStorage, id: u32)
    requires
        s0.wf(),
        !s0.has_entity(id),
        !s0.has_layout(s1@.last().spec_layout()),
        s0@.len() < u32::MAX,
        s1.next_index() == s0.next_index() + 1,
        s1@ == s0@.push(s1@.last()),
        s1@.last().spec_index() == s0@.len(),
        s1@.last().members() == seq![id],
    ensures
        s1.wf(),
        s1@.last().members().contains(id),
        preserves_others(s0, s1, id),
{
    let n = s0@.len() as int;
    assert(s1@[n].members()[0] == id);
    assert forall|i: int, j: int| 0 <= i < s1@.len() && 0 <= j < s1@.len() && i != j implies #[trigger] s1@[i].spec_layout()
        != #[trigger] s1@[j].spec_layout() by {
        if i == n {
            assert(s0@[j].spec_layout() == s1@[j].spec_layout());
        } else if j == n {
            assert(s0@[i].spec_layout() == s1@[i].spec_layout());
        }
    }
    assert forall|i: int, x: u32| 0 <= i < s1@.len() implies #[trigger] s1@[i].members().contains(x)
        <==> ((i < n && s0@[i].members().contains(x)) || (i == n && x == id)) by {
        if i == n && s1@[i].members().contains(x) {
            let p = choose|p: int| 0 <= p < s1@[i].members().len() && s1@[i].members()[p] == x;
            assert(p == 0);
        }
    }
    assert(s1.wf());
    assert forall|x: u32| x != id implies #[trigger] s1.has_entity(x) == s0.has_entity(x) by {
        if s1.has_entity(x) {
            let i = choose|i: int| 0 <= i < s1@.len() && #[trigger] s1@[i].members().contains(x);
            assert(s0@[i].members().contains(x));
        }
        if s0.has_entity(x) {
            let i = choose|i: int| 0 <= i < s0@.len() && #[trigger] s0@[i].members().contains(x);
            assert(s1@[i].members().contains(x));
        }
    }
    assert forall|x: u32| x != id && s0.has_entity(x) implies #[trigger] s1.entity_index(x)
        == s0.entity_index(x) by {
        let i = s0.entity_index(x);
        assert(s0@[i].members().contains(x));
        assert(s1@[i].members().contains(x));
        lemma_entity_index(s1, i, x);
    }
}

} // verus!
