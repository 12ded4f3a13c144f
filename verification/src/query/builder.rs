//! The builder that gathers what a query asks.
use crate::component::{ComponentId, TypePath};
use crate::query::state::QueryState;
use crate::query::{check_terms, is_consistent, is_known, Access, AccessTerm, QueryError};
use crate::world::World;
use vstd::prelude::*;

verus! {

/// Gathers the terms of a query, one call at a time, until `build` turns
/// them into a query state.
pub struct QueryBuilder {
    terms: Vec<AccessTerm>,
}

impl QueryBuilder {
    /// The terms gathered so far, in the order of the calls.
    pub closed spec fn view(&self) -> Seq<AccessTerm> {
        self.terms@
    }

    /// A builder that asks for nothing yet.
    pub fn new() -> (builder: Self)
        ensures
            builder@ == Seq::<AccessTerm>::empty(),
    {
        QueryBuilder { terms: Vec::new() }
    }

    /// Adds one term.
    pub fn add(&mut self, id: ComponentId, access: Access) -> (builder: &mut Self)
        ensures
            builder@ == old(self)@.push(AccessTerm { id, access }),
            *final(builder) == *final(self),
    {
        self.terms.push(AccessTerm { id, access });
        self
    }

    /// Asks for component `component_id` to be present, to read it.
    pub fn with_ref_id(&mut self, component_id: ComponentId) -> (builder: &mut Self)
        ensures
            builder@ == old(self)@.push(AccessTerm { id: component_id, access: Access::Read }),
            *final(builder) == *final(self),
    {
        self.add(component_id, Access::Read)
    }

    /// Asks for component `component_id` to be present, to read and write
    /// it.
    pub fn with_mut_id(&mut self, component_id: ComponentId) -> (builder: &mut Self)
        ensures
            builder@ == old(self)@.push(AccessTerm { id: component_id, access: Access::Write }),
            *final(builder) == *final(self),
    {
        self.add(component_id, Access::Write)
    }

    /// Asks for component `component_id` to be present, without touching
    /// it.
    pub fn with_id(&mut self, component_id: ComponentId) -> (builder: &mut Self)
        ensures
            builder@ == old(self)@.push(AccessTerm { id: component_id, access: Access::With }),
            *final(builder) == *final(self),
    {
        self.add(component_id, Access::With)
    }

    /// Asks for component `component_id` to be absent.
    pub fn without_id(&mut self, component_id: ComponentId) -> (builder: &mut Self)
        ensures
            builder@ == old(self)@.push(AccessTerm { id: component_id, access: Access::Without }),
            *final(builder) == *final(self),
    {
        self.add(component_id, Access::Without)
    }

    /// Asks for component type `T` to be present, to read it.
    pub fn with_ref<T: TypePath>(&mut self, world: &World) -> (builder: &mut Self)
        requires
            world.wf(),
            world@.component_id(T::type_path_spec()) is Some,
        ensures
            builder@ == old(self)@.push(
                AccessTerm {
                    id: world@.component_id(T::type_path_spec())->Some_0,
                    access: Access::Read,
                },
            ),
            *final(builder) == *final(self),
    {
        let component_id = world.get_component_id::<T>().unwrap();
        self.with_ref_id(component_id)
    }

    /// Asks for component type `T` to be present, to read and write it.
    pub fn with_mut<T: TypePath>(&mut self, world: &World) -> (builder: &mut Self)
        requires
            world.wf(),
            world@.component_id(T::type_path_spec()) is Some,
        ensures
            builder@ == old(self)@.push(
                AccessTerm {
                    id: world@.component_id(T::type_path_spec())->Some_0,
                    access: Access::Write,
                },
            ),
            *final(builder) == *final(self),
    {
        let component_id = world.get_component_id::<T>().unwrap();
        self.with_mut_id(component_id)
    }

    /// Asks for component type `T` to be present, without touching it.
    pub fn with<T: TypePath>(&mut self, world: &World) -> (builder: &mut Self)
        requires
            world.wf(),
            world@.component_id(T::type_path_spec()) is Some,
        ensures
            builder@ == old(self)@.push(
                AccessTerm {
                    id: world@.component_id(T::type_path_spec())->Some_0,
                    access: Access::With,
                },
            ),
            *final(builder) == *final(self),
    {
        let component_id = world.get_component_id::<T>().unwrap();
        self.with_id(component_id)
    }

    /// Asks for component type `T` to be absent.
    pub fn without<T: TypePath>(&mut self, world: &World) -> (builder: &mut Self)
        requires
            world.wf(),
            world@.component_id(T::type_path_spec()) is Some,
        ensures
            builder@ == old(self)@.push(
                AccessTerm {
                    id: world@.component_id(T::type_path_spec())->Some_0,
                    access: Access::Without,
                },
            ),
            *final(builder) == *final(self),
    {
        let component_id = world.get_component_id::<T>().unwrap();
        self.without_id(component_id)
    }

    /// Turns the builder into a query state. The terms are checked here and
    /// nowhere else: the build fails where a term names an id that `world`
    /// does not know as a component, or where a component is asked to be
    /// present and absent at once. Either way the builder is spent.
    ///
    /// Whether the query conflicts with another that lives at the same time
    /// is not looked for here: `QueryState::conflicts_with` tells, and the
    /// parameters of one system are held to it when the system state is
    /// built.
    pub fn build(self, world: &World) -> (r: Result<QueryState, QueryError>)
        ensures
            match r {
                Ok(state) => check_terms(self@, world@) is Ok && state@ == self@,
                Err(e) => check_terms(self@, world@) == Err::<(), QueryError>(e),
            },
    {
        if !is_known(&self.terms, world) {
            return Err(QueryError::UnknownComponent);
        }
        if !is_consistent(&self.terms) {
            return Err(QueryError::ConflictingAccess);
        }
        Ok(QueryState::from_terms(self.terms))
    }

    /// The terms, for whoever takes the builder over.
    pub fn into_terms(self) -> (terms: Vec<AccessTerm>)
        ensures
            terms@ == self@,
    {
        self.terms
    }
}

} // verus!
