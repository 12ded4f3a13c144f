//! One pass over the entities that answer a query, and the view that the
//! pass hands out for each of them.
use crate::component::ComponentId;
use crate::entity::Entity;
use crate::query::{can_read, can_write, copy_terms, is_readable, is_writable, AccessTerm};
use crate::world::World;
use vstd::prelude::*;

verus! {

/// A view of one entity that reaches the components a query was declared
/// to read or write, and no others.
pub struct FilteredEntityMut {
    entity: Entity,
    terms: Vec<AccessTerm>,
}

impl FilteredEntityMut {
    /// The entity in view.
    pub closed spec fn entity(&self) -> Entity {
        self.entity
    }

    /// The terms of the query that the view comes from.
    pub closed spec fn terms(&self) -> Seq<AccessTerm> {
        self.terms@
    }

    /// A view of `entity` under the given terms.
    pub fn new(entity: Entity, terms: Vec<AccessTerm>) -> (view: Self)
        ensures
            view.entity() == entity,
            view.terms() == terms@,
    {
        FilteredEntityMut { entity, terms }
    }

    /// The entity in view.
    pub fn id(&self) -> (entity: Entity)
        ensures
            entity == self.entity(),
    {
        self.entity
    }

    /// Whether the view may read component `component_id`.
    pub fn may_read(&self, component_id: ComponentId) -> (b: bool)
        ensures
            b == can_read(self.terms(), component_id),
    {
        is_readable(&self.terms, component_id)
    }

    /// Whether the view may write component `component_id`.
    pub fn may_write(&self, component_id: ComponentId) -> (b: bool)
        ensures
            b == can_write(self.terms(), component_id),
    {
        is_writable(&self.terms, component_id)
    }

    /// The bytes of component `component_id`, in place. `None` where the
    /// query did not declare the component to be read or written, even if
    /// the entity carries it, and where the entity does not carry it.
    pub fn get_by_id<'a>(&self, world: &'a World, component_id: ComponentId) -> (r: Option<&'a [u8]>)
        ensures
            r is Some <==> can_read(self.terms(), component_id) && world@.has(
                self.entity(),
                component_id,
            ),
            r matches Some(bytes) ==> bytes@ == world@.component(self.entity(), component_id),
    {
        if is_readable(&self.terms, component_id) {
            world.get(self.entity, component_id)
        } else {
            None
        }
    }

    /// The bytes of component `component_id`, in place and open to writes.
    /// `None` where the query did not declare the component to be written,
    /// even if the entity carries it, and where the entity does not carry
    /// it. What is written through the slice is the component's value
    /// afterwards, and nothing else in the world changes.
    pub fn get_mut_by_id<'a>(&mut self, world: &'a mut World, component_id: ComponentId) -> (r:
        Option<&'a mut [u8]>)
        requires
            old(world).wf(),
        ensures
            final(self).entity() == old(self).entity(),
            final(self).terms() == old(self).terms(),
            r is Some <==> can_write(old(self).terms(), component_id) && old(world)@.has(
                old(self).entity(),
                component_id,
            ),
            r is None ==> final(world)@ == old(world)@,
            r matches Some(bytes) ==> {
                &&& bytes@ == old(world)@.component(old(self).entity(), component_id)
                &&& final(world)@ =~~= old(world)@.write(
                    old(self).entity(),
                    component_id,
                    final(bytes)@,
                )
                &&& final(bytes)@.len() == bytes@.len() ==> final(world).wf()
            },
    {
        if is_writable(&self.terms, component_id) {
            world.get_mut(self.entity, component_id)
        } else {
            None
        }
    }
}

/// One pass over the entities that answered a query when the pass began.
pub struct QueryIter {
    entities: Vec<Entity>,
    position: usize,
    terms: Vec<AccessTerm>,
}

impl QueryIter {
    /// The pass is in order: it has not run past its end.
    pub closed spec fn wf(&self) -> bool {
        self.position <= self.entities.len()
    }

    /// The entities of the whole pass, in the order in which they come.
    pub closed spec fn entities(&self) -> Seq<Entity> {
        self.entities@
    }

    /// How many entities the pass has handed out.
    pub closed spec fn position(&self) -> nat {
        self.position as nat
    }

    /// The entities still to come.
    pub open spec fn remaining(&self) -> Seq<Entity> {
        self.entities().skip(self.position() as int)
    }

    /// The terms of the query that is iterated.
    pub closed spec fn terms(&self) -> Seq<AccessTerm> {
        self.terms@
    }

    /// A pass over the given entities.
    pub fn new(entities: Vec<Entity>, terms: Vec<AccessTerm>) -> (iter: Self)
        ensures
            iter.wf(),
            iter.entities() == entities@,
            iter.remaining() == entities@,
            iter.position() == 0,
            iter.terms() == terms@,
    {
        let iter = QueryIter { entities, position: 0, terms };
        assert(iter.entities().skip(0) =~= iter.entities());
        iter
    }

    /// The view of the next entity, or `None` when every entity of the pass
    /// was handed out. After `None` the pass stays at its end.
    pub fn next(&mut self) -> (r: Option<FilteredEntityMut>)
        requires
            old(self).wf(),
        ensures
            final(self).wf(),
            final(self).entities() == old(self).entities(),
            final(self).terms() == old(self).terms(),
            match r {
                Some(view) => {
                    &&& old(self).remaining().len() > 0
                    &&& view.entity() == old(self).remaining()[0]
                    &&& view.terms() == old(self).terms()
                    &&& final(self).position() == old(self).position() + 1
                    &&& final(self).remaining() == old(self).remaining().skip(1)
                },
                None => {
                    &&& old(self).remaining().len() == 0
                    &&& *final(self) == *old(self)
                },
            },
    {
        if self.position < self.entities.len() {
            let entity = self.entities[self.position];
            self.position += 1;
            assert(final(self).entities().skip(final(self).position() as int) =~= old(
                self,
            ).entities().skip(old(self).position() as int).skip(1));
            Some(FilteredEntityMut::new(entity, copy_terms(&self.terms)))
        } else {
            None
        }
    }
}

} // verus!
