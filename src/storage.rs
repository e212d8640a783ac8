use vstd::prelude::*;

use std::collections::HashMap;

verus! {

broadcast use vstd::std_specs::hash::group_hash_axioms;

/// The identity token of a component type. Implementations of `Component` are
/// expected to give every value of one component type the same token, and
/// distinct component types distinct tokens.
pub type ComponentType = u32;

/// A value's position in its type's storage.
pub type ComponentIndex = usize;

/// A value that can be attached to an entity. The store keeps the values of
/// one component type together, keyed by the type's token.
pub trait Component {
    /// The token of this value's component type.
    spec fn spec_component_type(&self) -> ComponentType;

    /// Reports the token of this value's component type.
    fn component_type(&self) -> (r: ComponentType)
        ensures
            r == self.spec_component_type(),
    ;
}

/// A homogeneous, append-only array of component values.
pub trait Storage<T>: Sized {
    /// The stored values, in insertion order.
    spec fn values(&self) -> Seq<T>;

    fn new() -> (r: Self)
        ensures
            r.values() == Seq::<T>::empty(),
    ;

    /// Appends a value and returns the position it occupies.
    fn push_component(&mut self, component: T) -> (r: ComponentIndex)
        ensures
            r == old(self).values().len(),
            final(self).values() == old(self).values().push(component),
    ;

    /// The value at `index`, or nothing when `index` is out of range.
    fn get_component(&self, index: ComponentIndex) -> (r: Option<&T>)
        ensures
            match r {
                Some(v) => index < self.values().len() && *v == self.values()[index as int],
                None => index >= self.values().len(),
            },
    ;

    /// The value at `index` for mutation, or nothing when `index` is out of range.
    fn get_component_mut(&mut self, index: ComponentIndex) -> (r: Option<&mut T>)
        ensures
            match r {
                Some(v) => {
                    &&& index < old(self).values().len()
                    &&& *v == old(self).values()[index as int]
                    &&& final(self).values() == old(self).values().update(index as int, *final(v))
                },
                None => index >= old(self).values().len() && final(self).values() == old(
                    self,
                ).values(),
            },
    ;

    /// All values as one contiguous read-only view.
    fn as_slice(&self) -> (r: &[T])
        ensures
            r@ == self.values(),
    ;

    /// How many values are stored.
    fn size(&self) -> (r: usize)
        ensures
            r == self.values().len(),
    ;
}

/// A storage backed by a vector.
#[derive(Debug)]
pub struct VecStorage<T> {
    storage: Vec<T>,
}

impl<T> Storage<T> for VecStorage<T> {
    closed spec fn values(&self) -> Seq<T> {
        self.storage@
    }

    fn new() -> (r: Self) {
        VecStorage { storage: Vec::new() }
    }

    fn push_component(&mut self, component: T) -> (r: ComponentIndex) {
        let component_index = self.size();
        self.storage.push(component);
        component_index
    }

    fn get_component(&self, index: ComponentIndex) -> (r: Option<&T>) {
        if index < self.storage.len() {
            Some(&self.storage[index])
        } else {
            None
        }
    }

    fn get_component_mut(&mut self, index: ComponentIndex) -> (r: Option<&mut T>) {
        if index < self.storage.len() {
            Some(&mut self.storage[index])
        } else {
            None
        }
    }

    fn as_slice(&self) -> (r: &[T]) {
        self.storage.as_slice()
    }

    fn size(&self) -> (r: usize) {
        self.storage.len()
    }
}

/// One storage per component type, created on first use.
#[derive(Debug)]
pub struct ComponentStorages<C> {
    storages: HashMap<ComponentType, VecStorage<C>>,
}

impl<C> View for ComponentStorages<C> {
    type V = Map<ComponentType, Seq<C>>;

    closed spec fn view(&self) -> Map<ComponentType, Seq<C>> {
        self.storages@.map_values(|s: VecStorage<C>| s.values())
    }
}

impl<C> ComponentStorages<C> {
    /// The values of type `t`; empty for a type with no storage yet.
    pub open spec fn values_of(&self, t: ComponentType) -> Seq<C> {
        if self@.contains_key(t) {
            self@[t]
        } else {
            Seq::empty()
        }
    }

    pub fn new() -> (r: Self)
        ensures
            r@ == Map::<ComponentType, Seq<C>>::empty(),
    {
        let r = ComponentStorages { storages: HashMap::new() };
        assert(r@ =~= Map::<ComponentType, Seq<C>>::empty());
        r
    }

    /// Installs an empty storage for `component_type` unless it has one already;
    /// stored values are never dropped.
    pub fn create_storage(&mut self, component_type: ComponentType)
        ensures
            final(self)@ == if old(self)@.contains_key(component_type) {
                old(self)@
            } else {
                old(self)@.insert(component_type, Seq::<C>::empty())
            },
    {
        if !self.storages.contains_key(&component_type) {
            let storage = <VecStorage<C> as Storage<C>>::new();
            self.storages.insert(component_type, storage);
            assert(self@ =~= old(self)@.insert(component_type, Seq::<C>::empty()));
        }
    }

    /// The storage of `component_type`, created empty if there is none yet.
    pub fn get_storage(&mut self, component_type: ComponentType) -> (r: &VecStorage<C>)
        ensures
            final(self)@ == old(self)@.insert(component_type, old(self).values_of(component_type)),
            r.values() == old(self).values_of(component_type),
    {
        if !self.storages.contains_key(&component_type) {
            self.create_storage(component_type);
        }
        assert(self@ =~= old(self)@.insert(component_type, old(self).values_of(component_type)));
        self.get_storage_raw(component_type)
    }

    /// The storage of `component_type` for mutation, created empty if there is none yet.
    pub fn get_storage_mut(&mut self, component_type: ComponentType) -> (r: &mut VecStorage<C>)
        ensures
            r.values() == old(self).values_of(component_type),
            final(self)@ == old(self)@.insert(component_type, final(r).values()),
    {
        let storage = <VecStorage<C> as Storage<C>>::new();
        let r = self.storages.entry(component_type).or_insert(storage);
        proof {
            assert(after_borrow(self.storages)@ == old(self).storages@.insert(component_type, *final(r)));
        }
        r
    }

    /// The storage of a type known to have one.
    pub fn get_storage_raw(&self, component_type: ComponentType) -> (r: &VecStorage<C>)
        requires
            self@.contains_key(component_type),
        ensures
            r.values() == self@[component_type],
    {
        self.storages.get(&component_type).unwrap()
    }

    /// The storage of a type known to have one, for mutation.
    pub fn get_storage_raw_mut(&mut self, component_type: ComponentType) -> (r: &mut VecStorage<C>)
        requires
            old(self)@.contains_key(component_type),
        ensures
            r.values() == old(self)@[component_type],
            final(self)@ == old(self)@.insert(component_type, final(r).values()),
    {
        self.get_storage_mut(component_type)
    }
}

} // verus!
