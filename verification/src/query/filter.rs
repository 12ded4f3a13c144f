//! Filters as types: what a query asks to be present or absent, written
//! where the query is declared.
use crate::component::TypePath;
use crate::query::builder::QueryBuilder;
use crate::query::{Access, AccessTerm};
use crate::world::World;
use core::marker::PhantomData;
use vstd::prelude::*;

verus! {

/// Something that narrows a query down.
pub trait QueryFilter: Sized {
    /// The term that the filter stands for in `world`, as mathematics.
    spec fn term_spec(world: crate::world::WorldView) -> Option<AccessTerm>;

    /// Adds the filter's term to `builder`.
    fn filter(builder: &mut QueryBuilder, world: &World)
        requires
            world.wf(),
            Self::term_spec(world@) is Some,
        ensures
            final(builder)@ == old(builder)@.push(Self::term_spec(world@)->Some_0),
    ;
}

/// Asks for component type `T` to be present.
pub struct With<T> {
    marker: PhantomData<T>,
}

/// Asks for component type `T` to be absent.
pub struct Without<T> {
    marker: PhantomData<T>,
}

impl<T: TypePath> QueryFilter for With<T> {
    open spec fn term_spec(world: crate::world::WorldView) -> Option<AccessTerm> {
        match world.component_id(T::type_path_spec()) {
            Some(id) => Some(AccessTerm { id, access: Access::With }),
            None => None,
        }
    }

    fn filter(builder: &mut QueryBuilder, world: &World) {
        builder.with::<T>(world);
    }
}

impl<T: TypePath> QueryFilter for Without<T> {
    open spec fn term_spec(world: crate::world::WorldView) -> Option<AccessTerm> {
        match world.component_id(T::type_path_spec()) {
            Some(id) => Some(AccessTerm { id, access: Access::Without }),
            None => None,
        }
    }

    fn filter(builder: &mut QueryBuilder, world: &World) {
        builder.without::<T>(world);
    }
}

} // verus!
