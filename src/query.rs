use vstd::prelude::*;

use crate::storage::ComponentType;

verus! {

/// The component types a scan over the store asks for.
pub struct Query {
    components: Vec<ComponentType>,
}

impl View for Query {
    type V = Seq<ComponentType>;

    closed spec fn view(&self) -> Seq<ComponentType> {
        self.components@
    }
}

impl Query {
    pub fn builder() -> (r: QueryBuilder)
        ensures
            r@ == Seq::<ComponentType>::empty(),
    {
        QueryBuilder::default()
    }

    pub fn components(&self) -> (r: &Vec<ComponentType>)
        ensures
            r@ == self@,
    {
        &self.components
    }
}

/// Collects the component types of a query, in the order given.
pub struct QueryBuilder {
    components: Vec<ComponentType>,
}

impl View for QueryBuilder {
    type V = Seq<ComponentType>;

    closed spec fn view(&self) -> Seq<ComponentType> {
        self.components@
    }
}

impl Default for QueryBuilder {
    fn default() -> (r: QueryBuilder)
        ensures
            r@ == Seq::<ComponentType>::empty(),
    {
        QueryBuilder::new()
    }
}

impl QueryBuilder {
    pub fn new() -> (r: QueryBuilder)
        ensures
            r@ == Seq::<ComponentType>::empty(),
    {
        Self { components: Vec::new() }
    }

    pub fn with(self, component_type: ComponentType) -> (r: QueryBuilder)
        ensures
            r@ == self@.push(component_type),
    {
        let mut components = self.components;
        components.push(component_type);
        QueryBuilder { components }
    }

    pub fn build(self) -> (r: Query)
        ensures
            r@ == self@,
    {
        Query { components: self.components }
    }
}

} // verus!
