//! The host's tables of live objects, and the calls that reach the objects
//! through handles.
//!
//! Every object that a guest holds is held here, under a handle that the
//! guest passes back with each call. A call with a handle that is no longer
//! valid, or never was, fails and changes nothing. A call that hands an
//! object over to another object ends the handle of the first.
use crate::component::ComponentId;
use crate::entity::Entity;
use crate::handle::{
    commands,
    deferred_world,
    dyn_system_param,
    filtered_entity_mut,
    param_builder,
    query,
    query_builder,
    query_iter,
    query_state,
    system,
    system_state,
    Handle,
    HandleTable,
    TableView,
};
use crate::query::builder::QueryBuilder;
use crate::query::iter::{FilteredEntityMut, QueryIter};
use crate::query::state::QueryState;
use crate::query::{can_read, can_write, check_terms, matching, Access, AccessTerm, Query};
use crate::system::builder::{check_params, ParamBuilder};
use crate::system::commands::Callback;
use crate::system::param::{
    dyn_views,
    queued,
    DeferredWorld,
    DynParam,
    DynParamView,
    ParamKind,
    ParamView,
};
use crate::system::state::{SystemState, SystemStateView};
use crate::world::World;
use vstd::prelude::*;

verus! {

/// The tables of the query objects as mathematics.
pub struct QueryTablesView {
    pub builders: TableView<query_builder, QueryBuilder>,
    pub states: TableView<query_state, QueryState>,
    pub iters: TableView<query_iter, QueryIter>,
    pub views: TableView<filtered_entity_mut, FilteredEntityMut>,
}

impl QueryTablesView {
    /// The tables in which nothing was ever stored.
    pub open spec fn empty() -> Self {
        QueryTablesView {
            builders: TableView::empty(),
            states: TableView::empty(),
            iters: TableView::empty(),
            views: TableView::empty(),
        }
    }
}

/// The query objects that guests hold: builders, built states, running
/// iterations, and views of single entities.
pub struct QueryTables {
    builders: HandleTable<query_builder, QueryBuilder>,
    states: HandleTable<query_state, QueryState>,
    iters: HandleTable<query_iter, QueryIter>,
    views: HandleTable<filtered_entity_mut, FilteredEntityMut>,
}

impl QueryTables {
    /// The tables as mathematics.
    pub closed spec fn view(&self) -> QueryTablesView {
        QueryTablesView {
            builders: self.builders@,
            states: self.states@,
            iters: self.iters@,
            views: self.views@,
        }
    }

    /// Every table is well-formed, and every iteration in the tables is in
    /// order.
    pub closed spec fn wf(&self) -> bool {
        &&& self.builders.wf()
        &&& self.states.wf()
        &&& self.iters.wf()
        &&& self.views.wf()
        &&& forall|h: Handle<query_iter>| #[trigger]
            self.iters@.live.dom().contains(h) ==> self.iters@.live[h].wf()
    }

    /// How many more builders can be stored.
    pub closed spec fn builder_room(&self) -> nat {
        self.builders.room()
    }

    /// How many more states can be stored.
    pub closed spec fn state_room(&self) -> nat {
        self.states.room()
    }

    /// How many more iterations can be stored.
    pub closed spec fn iter_room(&self) -> nat {
        self.iters.room()
    }

    /// How many more views can be stored.
    pub closed spec fn view_room(&self) -> nat {
        self.views.room()
    }

    /// Empty tables.
    pub fn new() -> (tables: Self)
        ensures
            tables.wf(),
            tables@ == QueryTablesView::empty(),
            tables.builder_room() == u32::MAX,
            tables.state_room() == u32::MAX,
            tables.iter_room() == u32::MAX,
            tables.view_room() == u32::MAX,
    {
        QueryTables {
            builders: HandleTable::new(),
            states: HandleTable::new(),
            iters: HandleTable::new(),
            views: HandleTable::new(),
        }
    }

    /// Makes a query builder for `owner` that asks for nothing yet. `None`
    /// when no more builders can be stored.
    pub fn query_builder_new(&mut self, owner: u64) -> (r: Option<Handle<query_builder>>)
        requires
            old(self).wf(),
        ensures
            final(self).wf(),
            r is Some <==> old(self).builder_room() > 0,
            final(self)@ == (QueryTablesView { builders: final(self)@.builders, ..old(self)@ }),
            match r {
                Some(h) => {
                    &&& old(self)@.builders.added(h, final(self)@.builders)
                    &&& final(self)@.builders.live[h]@ == Seq::<AccessTerm>::empty()
                    &&& final(self)@.builders.owners[h] == owner
                },
                None => final(self)@ == old(self)@,
            },
    {
        self.builders.insert(QueryBuilder::new(), owner)
    }

    /// Adds one term to the builder behind `builder`. `false`, and no
    /// change, where the handle is not valid.
    pub fn query_builder_add(
        &mut self,
        builder: Handle<query_builder>,
        component_id: usize,
        access: Access,
    ) -> (ok: bool)
        requires
            old(self).wf(),
        ensures
            final(self).wf(),
            ok == old(self)@.builders.live.dom().contains(builder),
            final(self)@ == (QueryTablesView { builders: final(self)@.builders, ..old(self)@ }),
            ok ==> {
                &&& old(self)@.builders.changed(builder, final(self)@.builders)
                &&& final(self)@.builders.live[builder]@ == old(self)@.builders.live[builder]@.push(
                    AccessTerm { id: ComponentId { index: component_id }, access },
                )
            },
            !ok ==> final(self)@ == old(self)@,
            final(self).builder_room() == old(self).builder_room(),
    {
        let ok = match self.builders.get_mut(builder) {
            Ok(object) => {
                object.add(ComponentId::new(component_id), access);
                true
            },
            Err(_) => false,
        };
        proof {
            if ok {
                assert(self@.builders.live.dom() =~= old(self)@.builders.live.dom());
            }
        }
        ok
    }

    /// Asks for component `component_id` to be present, to read it.
    pub fn query_builder_with_ref(&mut self, builder: Handle<query_builder>, component_id: usize) -> (ok:
        bool)
        requires
            old(self).wf(),
        ensures
            final(self).wf(),
            ok == old(self)@.builders.live.dom().contains(builder),
            final(self)@ == (QueryTablesView { builders: final(self)@.builders, ..old(self)@ }),
            ok ==> {
                &&& old(self)@.builders.changed(builder, final(self)@.builders)
                &&& final(self)@.builders.live[builder]@ == old(self)@.builders.live[builder]@.push(
                    AccessTerm { id: ComponentId { index: component_id }, access: Access::Read },
                )
            },
            !ok ==> final(self)@ == old(self)@,
    {
        self.query_builder_add(builder, component_id, Access::Read)
    }

    /// Asks for component `component_id` to be present, to read and write
    /// it.
    pub fn query_builder_with_mut(&mut self, builder: Handle<query_builder>, component_id: usize) -> (ok:
        bool)
        requires
            old(self).wf(),
        ensures
            final(self).wf(),
            ok == old(self)@.builders.live.dom().contains(builder),
            final(self)@ == (QueryTablesView { builders: final(self)@.builders, ..old(self)@ }),
            ok ==> {
                &&& old(self)@.builders.changed(builder, final(self)@.builders)
                &&& final(self)@.builders.live[builder]@ == old(self)@.builders.live[builder]@.push(
                    AccessTerm { id: ComponentId { index: component_id }, access: Access::Write },
                )
            },
            !ok ==> final(self)@ == old(self)@,
    {
        self.query_builder_add(builder, component_id, Access::Write)
    }

    /// Asks for component `component_id` to be present, without touching
    /// it.
    pub fn query_builder_with(&mut self, builder: Handle<query_builder>, component_id: usize) -> (ok:
        bool)
        requires
            old(self).wf(),
        ensures
            final(self).wf(),
            ok == old(self)@.builders.live.dom().contains(builder),
            final(self)@ == (QueryTablesView { builders: final(self)@.builders, ..old(self)@ }),
            ok ==> {
                &&& old(self)@.builders.changed(builder, final(self)@.builders)
                &&& final(self)@.builders.live[builder]@ == old(self)@.builders.live[builder]@.push(
                    AccessTerm { id: ComponentId { index: component_id }, access: Access::With },
                )
            },
            !ok ==> final(self)@ == old(self)@,
    {
        self.query_builder_add(builder, component_id, Access::With)
    }

    /// Asks for component `component_id` to be absent.
    pub fn query_builder_without(&mut self, builder: Handle<query_builder>, component_id: usize) -> (ok:
        bool)
        requires
            old(self).wf(),
        ensures
            final(self).wf(),
            ok == old(self)@.builders.live.dom().contains(builder),
            final(self)@ == (QueryTablesView { builders: final(self)@.builders, ..old(self)@ }),
            ok ==> {
                &&& old(self)@.builders.changed(builder, final(self)@.builders)
                &&& final(self)@.builders.live[builder]@ == old(self)@.builders.live[builder]@.push(
                    AccessTerm { id: ComponentId { index: component_id }, access: Access::Without },
                )
            },
            !ok ==> final(self)@ == old(self)@,
    {
        self.query_builder_add(builder, component_id, Access::Without)
    }

    /// Takes the builder behind `builder` out of the tables. From then on
    /// the handle is stale.
    pub fn take_builder(&mut self, builder: Handle<query_builder>) -> (r: Option<QueryBuilder>)
        requires
            old(self).wf(),
        ensures
            final(self).wf(),
            r is Some <==> old(self)@.builders.live.dom().contains(builder),
            r matches Some(object) ==> object == old(self)@.builders.live[builder],
            final(self)@ == (QueryTablesView {
                builders: old(self)@.builders.remove(builder),
                ..old(self)@
            }),
            final(self).state_room() == old(self).state_room(),
    {
        match self.builders.remove(builder) {
            Ok(object) => Some(object),
            Err(_) => None,
        }
    }

    /// Destroys the builder behind `builder`. `false`, and no change, where
    /// the handle is not valid.
    pub fn query_builder_drop(&mut self, builder: Handle<query_builder>) -> (ok: bool)
        requires
            old(self).wf(),
        ensures
            final(self).wf(),
            ok == old(self)@.builders.live.dom().contains(builder),
            final(self)@ == (QueryTablesView {
                builders: old(self)@.builders.remove(builder),
                ..old(self)@
            }),
    {
        self.take_builder(builder).is_some()
    }

    /// Turns the builder behind `builder` into a query state and answers
    /// with the handle of the state, which belongs to whom the builder
    /// belonged. The builder is handed over: its handle is stale from now
    /// on, whether the build succeeds or not. The build fails where the
    /// handle is not valid, where the terms do not pass the check against
    /// `world`, and where no more states can be stored. Whether the query
    /// conflicts with another that lives at the same time is not looked
    /// for here; `QueryState::conflicts_with` tells.
    pub fn query_builder_build(&mut self, builder: Handle<query_builder>, world: &World) -> (r: Option<
        Handle<query_state>,
    >)
        requires
            old(self).wf(),
        ensures
            final(self).wf(),
            r is Some <==> {
                &&& old(self)@.builders.live.dom().contains(builder)
                &&& check_terms(old(self)@.builders.live[builder]@, world@) is Ok
                &&& old(self).state_room() > 0
            },
            final(self)@ == (QueryTablesView {
                builders: old(self)@.builders.remove(builder),
                states: final(self)@.states,
                ..old(self)@
            }),
            match r {
                Some(state) => {
                    &&& old(self)@.states.added(state, final(self)@.states)
                    &&& final(self)@.states.live[state]@ == old(self)@.builders.live[builder]@
                    &&& final(self)@.states.owners[state] == old(self)@.builders.owners[builder]
                },
                None => final(self)@.states == old(self)@.states,
            },
    {
        let owner = match self.builders.owner_of(builder) {
            Ok(owner) => owner,
            Err(_) => {
                return None;
            },
        };
        let object = match self.take_builder(builder) {
            Some(object) => object,
            None => {
                return None;
            },
        };
        match object.build(world) {
            Ok(state) => self.states.insert(state, owner),
            Err(_) => None,
        }
    }

    /// Destroys the state behind `state`. `false`, and no change, where the
    /// handle is not valid.
    pub fn query_state_drop(&mut self, state: Handle<query_state>) -> (ok: bool)
        requires
            old(self).wf(),
        ensures
            final(self).wf(),
            ok == old(self)@.states.live.dom().contains(state),
            final(self)@ == (QueryTablesView {
                states: old(self)@.states.remove(state),
                ..old(self)@
            }),
    {
        self.states.remove(state).is_ok()
    }

    /// A copy of the terms of the state behind `state`.
    pub fn query_state_terms(&self, state: Handle<query_state>) -> (r: Option<Vec<AccessTerm>>)
        requires
            self.wf(),
        ensures
            r is Some <==> self@.states.live.dom().contains(state),
            r matches Some(terms) ==> terms@ == self@.states.live[state]@,
    {
        match self.states.get(state) {
            Ok(object) => Some(object.terms()),
            Err(_) => None,
        }
    }

    /// Who the state behind `state` belongs to.
    pub fn query_state_owner(&self, state: Handle<query_state>) -> (r: Option<u64>)
        requires
            self.wf(),
        ensures
            r is Some <==> self@.states.live.dom().contains(state),
            r matches Some(owner) ==> owner == self@.states.owners[state],
    {
        match self.states.owner_of(state) {
            Ok(owner) => Some(owner),
            Err(_) => None,
        }
    }

    /// Starts an iteration for `owner` over `entities`, for the query with
    /// the given terms, and answers with its handle. `None`, and no change,
    /// where no more iterations can be stored.
    pub fn query_iter_new(&mut self, entities: Vec<Entity>, terms: Vec<AccessTerm>, owner: u64) -> (r:
        Option<Handle<query_iter>>)
        requires
            old(self).wf(),
        ensures
            final(self).wf(),
            r is Some <==> old(self).iter_room() > 0,
            final(self)@ == (QueryTablesView { iters: final(self)@.iters, ..old(self)@ }),
            final(self).view_room() == old(self).view_room(),
            match r {
                Some(iter) => {
                    &&& old(self)@.iters.added(iter, final(self)@.iters)
                    &&& final(self)@.iters.live[iter].remaining() == entities@
                    &&& final(self)@.iters.live[iter].position() == 0
                    &&& final(self)@.iters.live[iter].terms() == terms@
                    &&& final(self)@.iters.owners[iter] == owner
                },
                None => final(self)@ == old(self)@,
            },
    {
        self.iters.insert(QueryIter::new(entities, terms), owner)
    }

    /// Starts an iteration over the entities of `world` that answer the
    /// query behind `state` now, and answers with its handle, which belongs
    /// to whom the state belongs. `None`, and no change, where the handle
    /// is not valid or no more iterations can be stored.
    pub fn query_state_iter_mut(&mut self, state: Handle<query_state>, world: &World) -> (r: Option<
        Handle<query_iter>,
    >)
        requires
            old(self).wf(),
        ensures
            final(self).wf(),
            r is Some <==> old(self)@.states.live.dom().contains(state) && old(self).iter_room() > 0,
            final(self)@ == (QueryTablesView { iters: final(self)@.iters, ..old(self)@ }),
            match r {
                Some(iter) => {
                    &&& old(self)@.iters.added(iter, final(self)@.iters)
                    &&& final(self)@.iters.live[iter].remaining() == matching(
                        old(self)@.states.live[state]@,
                        world@,
                    )
                    &&& final(self)@.iters.live[iter].position() == 0
                    &&& final(self)@.iters.live[iter].terms() == old(self)@.states.live[state]@
                    &&& final(self)@.iters.owners[iter] == old(self)@.states.owners[state]
                },
                None => final(self)@ == old(self)@,
            },
    {
        let terms = match self.query_state_terms(state) {
            Some(terms) => terms,
            None => {
                return None;
            },
        };
        let owner = match self.query_state_owner(state) {
            Some(owner) => owner,
            None => {
                return None;
            },
        };
        let entities = crate::query::find_matching(&terms, world);
        self.query_iter_new(entities, terms, owner)
    }

    /// Destroys the iteration behind `iter`. `false`, and no change, where
    /// the handle is not valid.
    pub fn query_iter_drop(&mut self, iter: Handle<query_iter>) -> (ok: bool)
        requires
            old(self).wf(),
        ensures
            final(self).wf(),
            ok == old(self)@.iters.live.dom().contains(iter),
            final(self)@ == (QueryTablesView { iters: old(self)@.iters.remove(iter), ..old(self)@ }),
    {
        self.iters.remove(iter).is_ok()
    }

    /// Hands out the next entity of the iteration behind `iter`: its bits,
    /// and the handle of a view of it, which belongs to whom the iteration
    /// belongs. `None`, and no change, where the handle is not valid, where
    /// every entity of the pass was handed out, and where no more views can
    /// be stored.
    pub fn query_iter_next(&mut self, iter: Handle<query_iter>) -> (r: Option<
        (u64, Handle<filtered_entity_mut>),
    >)
        requires
            old(self).wf(),
        ensures
            final(self).wf(),
            r is Some <==> {
                &&& old(self)@.iters.live.dom().contains(iter)
                &&& old(self)@.iters.live[iter].remaining().len() > 0
                &&& old(self).view_room() > 0
            },
            final(self)@ == (QueryTablesView {
                iters: final(self)@.iters,
                views: final(self)@.views,
                ..old(self)@
            }),
            match r {
                Some((bits, view)) => {
                    let before = old(self)@.iters.live[iter];
                    let after = final(self)@.iters.live[iter];
                    &&& old(self)@.iters.changed(iter, final(self)@.iters)
                    &&& after.remaining() == before.remaining().skip(1)
                    &&& after.position() == before.position() + 1
                    &&& after.terms() == before.terms()
                    &&& old(self)@.views.added(view, final(self)@.views)
                    &&& bits == before.remaining()[0].bits
                    &&& final(self)@.views.live[view].entity() == before.remaining()[0]
                    &&& final(self)@.views.live[view].terms() == before.terms()
                    &&& final(self)@.views.owners[view] == old(self)@.iters.owners[iter]
                },
                None => final(self)@ == old(self)@,
            },
    {
        if !self.views.has_room_for(1) {
            return None;
        }
        let owner = match self.iters.owner_of(iter) {
            Ok(owner) => owner,
            Err(_) => {
                return None;
            },
        };
        let stepped = match self.iters.get_mut(iter) {
            Ok(object) => object.next(),
            Err(_) => None,
        };
        proof {
            if old(self)@.iters.live.dom().contains(iter) {
                assert(self@.iters.live.dom() =~= old(self)@.iters.live.dom());
                if stepped is None {
                    assert(self@.iters.live =~= old(self)@.iters.live);
                }
            }
        }
        match stepped {
            Some(view) => {
                let bits = view.id().to_bits();
                match self.views.insert(view, owner) {
                    Some(handle) => Some((bits, handle)),
                    None => None,
                }
            },
            None => None,
        }
    }

    /// The entity in the view behind `view`, where the view may read
    /// component `component_id`, or write it if `write` is set. `None`
    /// where the handle is not valid or the view may not.
    pub fn filtered_entity_mut_access(
        &self,
        view: Handle<filtered_entity_mut>,
        component_id: usize,
        write: bool,
    ) -> (r: Option<Entity>)
        requires
            self.wf(),
        ensures
            r is Some <==> {
                &&& self@.views.live.dom().contains(view)
                &&& if write {
                    can_write(self@.views.live[view].terms(), ComponentId { index: component_id })
                } else {
                    can_read(self@.views.live[view].terms(), ComponentId { index: component_id })
                }
            },
            r matches Some(entity) ==> entity == self@.views.live[view].entity(),
    {
        match self.views.get(view) {
            Ok(object) => {
                let allowed = if write {
                    object.may_write(ComponentId::new(component_id))
                } else {
                    object.may_read(ComponentId::new(component_id))
                };
                if allowed {
                    Some(object.id())
                } else {
                    None
                }
            },
            Err(_) => None,
        }
    }

    /// The bytes of component `component_id` on the entity in the view
    /// behind `view`, in place. `None` where the handle is not valid, the
    /// view may not read the component, or the entity does not carry it.
    pub fn filtered_entity_mut_get_component<'a>(
        &self,
        view: Handle<filtered_entity_mut>,
        world: &'a World,
        component_id: usize,
    ) -> (r: Option<&'a [u8]>)
        requires
            self.wf(),
        ensures
            r is Some <==> {
                &&& self@.views.live.dom().contains(view)
                &&& can_read(self@.views.live[view].terms(), ComponentId { index: component_id })
                &&& world@.has(self@.views.live[view].entity(), ComponentId { index: component_id })
            },
            r matches Some(bytes) ==> bytes@ == world@.component(
                self@.views.live[view].entity(),
                ComponentId { index: component_id },
            ),
    {
        match self.views.get(view) {
            Ok(object) => object.get_by_id(world, ComponentId::new(component_id)),
            Err(_) => None,
        }
    }

    /// The bytes of component `component_id` on the entity in the view
    /// behind `view`, in place and open to writes. `None` where the handle
    /// is not valid, the view may not write the component, or the entity
    /// does not carry it.
    pub fn filtered_entity_mut_get_component_mut<'a>(
        &self,
        view: Handle<filtered_entity_mut>,
        world: &'a mut World,
        component_id: usize,
    ) -> (r: Option<&'a mut [u8]>)
        requires
            self.wf(),
            old(world).wf(),
        ensures
            r is Some <==> {
                &&& self@.views.live.dom().contains(view)
                &&& can_write(self@.views.live[view].terms(), ComponentId { index: component_id })
                &&& old(world)@.has(
                    self@.views.live[view].entity(),
                    ComponentId { index: component_id },
                )
            },
            r is None ==> final(world)@ == old(world)@,
            r matches Some(bytes) ==> {
                &&& bytes@ == old(world)@.component(
                    self@.views.live[view].entity(),
                    ComponentId { index: component_id },
                )
                &&& final(world)@ =~~= old(world)@.write(
                    self@.views.live[view].entity(),
                    ComponentId { index: component_id },
                    final(bytes)@,
                )
                &&& final(bytes)@.len() == bytes@.len() ==> final(world).wf()
            },
    {
        match self.filtered_entity_mut_access(view, component_id, true) {
            Some(entity) => world.get_mut(entity, ComponentId::new(component_id)),
            None => None,
        }
    }

    /// Destroys the view behind `view`. `false`, and no change, where the
    /// handle is not valid.
    pub fn filtered_entity_mut_drop(&mut self, view: Handle<filtered_entity_mut>) -> (ok: bool)
        requires
            old(self).wf(),
        ensures
            final(self).wf(),
            ok == old(self)@.views.live.dom().contains(view),
            final(self)@ == (QueryTablesView { views: old(self)@.views.remove(view), ..old(self)@ }),
    {
        self.views.remove(view).is_ok()
    }

    /// Destroys every object that belongs to `owner`. This is what becomes
    /// of the handles of a library that is unloaded: all of them are stale
    /// from now on.
    pub fn purge(&mut self, owner: u64)
        requires
            old(self).wf(),
        ensures
            final(self).wf(),
            final(self)@ == (QueryTablesView {
                builders: old(self)@.builders.purge(owner),
                states: old(self)@.states.purge(owner),
                iters: old(self)@.iters.purge(owner),
                views: old(self)@.views.purge(owner),
            }),
    {
        self.builders.purge(owner);
        self.states.purge(owner);
        self.iters.purge(owner);
        self.views.purge(owner);
    }
}

/// One parameter object in the tables: the parameter itself, the system
/// state whose fetch made it, if a fetch did, and whether the guest has
/// downcast it yet.
pub struct ParamSlot {
    pub param: DynParam,
    pub owner: Option<Handle<system_state>>,
    pub taken: bool,
}

/// One system state in the tables: the state itself, the guest function it
/// was bound to, once it is, and the handles of the parameters that are out.
pub struct SystemSlot {
    pub state: SystemState,
    pub callback: Option<Callback>,
    pub handed: Vec<Handle<dyn_system_param>>,
}

/// The tables of the system objects as mathematics.
pub struct SystemTablesView {
    pub param_builders: TableView<param_builder, ParamBuilder>,
    pub systems: TableView<system_state, SystemSlot>,
    pub params: TableView<dyn_system_param, ParamSlot>,
}

impl SystemTablesView {
    /// The tables in which nothing was ever stored.
    pub open spec fn empty() -> Self {
        SystemTablesView {
            param_builders: TableView::empty(),
            systems: TableView::empty(),
            params: TableView::empty(),
        }
    }

    /// Whether the parameters that the state behind `s` has out are in
    /// order: there are as many as the state declared while they are out
    /// and none otherwise, no handle is among them twice, and each is valid,
    /// made by this state, and of the kind declared at its position.
    pub open spec fn slot_ok(self, s: Handle<system_state>) -> bool {
        let slot = self.systems.live[s];
        &&& slot.handed@.len() == (if slot.state@.fetched {
            slot.state@.params.len()
        } else {
            0
        })
        &&& slot.handed@.no_duplicates()
        &&& forall|k: int|
            0 <= k < slot.handed@.len() ==> {
                let p = #[trigger] slot.handed@[k];
                &&& self.params.live.dom().contains(p)
                &&& self.params.live[p].owner == Some(s)
                &&& self.params.live[p].param@.kind() == slot.state@.params[k].kind()
                &&& self.params.owners[p] == self.systems.owners[s]
            }
    }

    /// Whether `after` is these tables after the state behind `s` handed
    /// its parameters out under `handles`: the state says so and remembers
    /// the handles; each handle is new and stands for the parameter declared
    /// at its position, freshly made, owned by the state and not downcast
    /// yet; nothing else changed.
    pub open spec fn fetched(
        self,
        s: Handle<system_state>,
        handles: Seq<Handle<dyn_system_param>>,
        after: Self,
    ) -> bool {
        let before = self.systems.live[s];
        let slot = after.systems.live[s];
        &&& self.systems.changed(s, after.systems)
        &&& slot.state@ == (SystemStateView { fetched: true, ..before.state@ })
        &&& slot.callback == before.callback
        &&& slot.handed@ == handles
        &&& handles.len() == before.state@.params.len()
        &&& handles.no_duplicates()
        &&& after.param_builders == self.param_builders
        &&& after.params.retired == self.params.retired
        &&& forall|p: Handle<dyn_system_param>|
            #[trigger] after.params.live.dom().contains(p) <==> (self.params.live.dom().contains(p)
                || handles.contains(p))
        &&& forall|p: Handle<dyn_system_param>| #[trigger]
            self.params.live.dom().contains(p) ==> after.params.live[p] == self.params.live[p]
                && after.params.owners[p] == self.params.owners[p]
        &&& forall|k: int|
            0 <= k < handles.len() ==> {
                let p = #[trigger] handles[k];
                &&& !self.params.live.dom().contains(p)
                &&& !self.params.retired.contains(p)
                &&& p.generation() > 0
                &&& after.params.live[p].param@ == before.state@.params[k].fresh()
                &&& after.params.live[p].owner == Some(s)
                &&& !after.params.live[p].taken
                &&& after.params.owners[p] == self.systems.owners[s]
            }
    }

    /// Whether `after` is these tables after the state behind `s` took its
    /// parameters back: the parameters are destroyed, the commands queued
    /// in them wait in the state, behind those that waited before, and the
    /// state has nothing out; nothing else changed.
    pub open spec fn released(self, s: Handle<system_state>, after: Self) -> bool {
        let before = self.systems.live[s];
        let slot = after.systems.live[s];
        &&& self.systems.changed(s, after.systems)
        &&& slot.state@ == (SystemStateView {
            pending: before.state@.pending + queued(self.handed_params(s)),
            fetched: false,
            ..before.state@
        })
        &&& slot.callback == before.callback
        &&& slot.handed@ == Seq::<Handle<dyn_system_param>>::empty()
        &&& after.param_builders == self.param_builders
        &&& self.params_released(s, after)
    }

    /// The handles of the parameters that the state behind `s` has out.
    pub open spec fn handed_set(self, s: Handle<system_state>) -> Set<Handle<dyn_system_param>> {
        self.systems.live[s].handed@.to_set()
    }

    /// Whether the parameters of `after` are those of these tables without
    /// the ones that the state behind `s` had out, which are destroyed.
    pub open spec fn params_released(self, s: Handle<system_state>, after: Self) -> bool {
        after.params == (TableView {
            live: self.params.live.remove_keys(self.handed_set(s)),
            retired: self.params.retired.union(self.handed_set(s)),
            owners: self.params.owners.remove_keys(self.handed_set(s)),
        })
    }

    /// Whether the parameter behind `p` is valid, of kind `kind`, and
    /// downcast if `taken` is set and not yet if not.
    pub open spec fn param_is(self, p: Handle<dyn_system_param>, kind: ParamKind, taken: bool) -> bool {
        &&& self.params.live.dom().contains(p)
        &&& self.params.live[p].param@.kind() == kind
        &&& self.params.live[p].taken == taken
    }

    /// Whether the parameter behind `p` is valid, of kind `kind`, and made
    /// by no fetch.
    pub open spec fn param_is_free(self, p: Handle<dyn_system_param>, kind: ParamKind) -> bool {
        &&& self.params.live.dom().contains(p)
        &&& self.params.live[p].param@.kind() == kind
        &&& self.params.live[p].owner is None
    }

    /// The parameters that the state behind `s` has out, as mathematics, in
    /// the order in which they were handed out.
    pub open spec fn handed_params(self, s: Handle<system_state>) -> Seq<DynParamView> {
        let slot = self.systems.live[s];
        Seq::new(slot.handed@.len(), |k: int| self.params.live[slot.handed@[k]].param@)
    }
}

/// The system objects that guests hold: parameter builders, system states
/// and systems, and the parameters that are out.
pub struct SystemTables {
    param_builders: HandleTable<param_builder, ParamBuilder>,
    systems: HandleTable<system_state, SystemSlot>,
    params: HandleTable<dyn_system_param, ParamSlot>,
}

impl SystemTables {
    /// The tables as mathematics.
    pub closed spec fn view(&self) -> SystemTablesView {
        SystemTablesView {
            param_builders: self.param_builders@,
            systems: self.systems@,
            params: self.params@,
        }
    }

    /// Every table is well-formed, and the parameters that each state has
    /// out are in order.
    pub closed spec fn wf(&self) -> bool {
        &&& self.param_builders.wf()
        &&& self.systems.wf()
        &&& self.params.wf()
        &&& forall|s: Handle<system_state>| #[trigger]
            self@.systems.live.dom().contains(s) ==> self@.slot_ok(s)
    }

    /// While a state has its parameters out, each of them is valid, made by
    /// this state, and of the kind declared at its position; while it has
    /// none out, none is noted for it.
    pub proof fn law_fetched_parameters_are_in_order(&self, s: Handle<system_state>)
        requires
            self.wf(),
            self@.systems.live.dom().contains(s),
        ensures
            self@.slot_ok(s),
    {
    }

    /// States whose slots and parameters did not change stay in order.
    proof fn lemma_frame(before: SystemTablesView, after: SystemTablesView)
        requires
            before.systems == after.systems,
            before.params == after.params,
            forall|s: Handle<system_state>| #[trigger]
                before.systems.live.dom().contains(s) ==> before.slot_ok(s),
        ensures
            forall|s: Handle<system_state>| #[trigger]
                after.systems.live.dom().contains(s) ==> after.slot_ok(s),
    {
        assert forall|s: Handle<system_state>| #[trigger]
            after.systems.live.dom().contains(s) implies after.slot_ok(s) by {
            assert(before.systems.live.dom().contains(s));
            assert(before.slot_ok(s));
        }
    }

    /// How many more parameter builders can be stored.
    pub closed spec fn param_builder_room(&self) -> nat {
        self.param_builders.room()
    }

    /// How many more system states and systems can be stored.
    pub closed spec fn system_room(&self) -> nat {
        self.systems.room()
    }

    /// How many more parameters can be stored.
    pub closed spec fn param_room(&self) -> nat {
        self.params.room()
    }

    /// Empty tables.
    pub fn new() -> (tables: Self)
        ensures
            tables.wf(),
            tables@ == SystemTablesView::empty(),
            tables.param_builder_room() == u32::MAX,
            tables.system_room() == u32::MAX,
            tables.param_room() == u32::MAX,
    {
        SystemTables {
            param_builders: HandleTable::new(),
            systems: HandleTable::new(),
            params: HandleTable::new(),
        }
    }

    /// Makes a parameter builder for `owner`, without parameters. `None`
    /// when no more builders can be stored.
    pub fn param_builder_new(&mut self, owner: u64) -> (r: Option<Handle<param_builder>>)
        requires
            old(self).wf(),
        ensures
            final(self).wf(),
            r is Some <==> old(self).param_builder_room() > 0,
            final(self)@ == (SystemTablesView {
                param_builders: final(self)@.param_builders,
                ..old(self)@
            }),
            match r {
                Some(h) => {
                    &&& old(self)@.param_builders.added(h, final(self)@.param_builders)
                    &&& final(self)@.param_builders.live[h]@ == Seq::<ParamView>::empty()
                    &&& final(self)@.param_builders.owners[h] == owner
                },
                None => final(self)@ == old(self)@,
            },
    {
        let r = self.param_builders.insert(ParamBuilder::new(), owner);
        proof {
            Self::lemma_frame(old(self)@, self@);
        }
        r
    }

    /// Adds a query parameter to the builder behind `builder`. The query
    /// builder behind `query` is handed over: its handle is stale from now
    /// on. `false`, and no change, where either handle is not valid.
    pub fn param_builder_add_query(
        &mut self,
        builder: Handle<param_builder>,
        queries: &mut QueryTables,
        query: Handle<query_builder>,
    ) -> (ok: bool)
        requires
            old(self).wf(),
            old(queries).wf(),
        ensures
            final(self).wf(),
            final(queries).wf(),
            ok == (old(self)@.param_builders.live.dom().contains(builder) && old(
                queries,
            )@.builders.live.dom().contains(query)),
            final(self)@ == (SystemTablesView {
                param_builders: final(self)@.param_builders,
                ..old(self)@
            }),
            ok ==> {
                &&& old(self)@.param_builders.changed(builder, final(self)@.param_builders)
                &&& final(self)@.param_builders.live[builder]@ == old(
                    self,
                )@.param_builders.live[builder]@.push(
                    ParamView::Query(old(queries)@.builders.live[query]@),
                )
                &&& final(queries)@ == (QueryTablesView {
                    builders: old(queries)@.builders.remove(query),
                    ..old(queries)@
                })
            },
            !ok ==> final(self)@ == old(self)@ && final(queries)@ == old(queries)@,
    {
        if self.param_builders.check(builder).is_err() {
            return false;
        }
        if queries.builders.check(query).is_err() {
            return false;
        }
        let object = match queries.take_builder(query) {
            Some(object) => object,
            None => {
                return false;
            },
        };
        match self.param_builders.get_mut(builder) {
            Ok(target) => {
                target.add_query(object);
            },
            Err(_) => {},
        }
        proof {
            assert(self@.param_builders.live.dom() =~= old(self)@.param_builders.live.dom());
        }
        true
    }

    /// Adds a command queue as a parameter to the builder behind
    /// `builder`. `false`, and no change, where the handle is not valid.
    pub fn param_builder_add_commands(&mut self, builder: Handle<param_builder>) -> (ok: bool)
        requires
            old(self).wf(),
        ensures
            final(self).wf(),
            ok == old(self)@.param_builders.live.dom().contains(builder),
            final(self)@ == (SystemTablesView {
                param_builders: final(self)@.param_builders,
                ..old(self)@
            }),
            ok ==> {
                &&& old(self)@.param_builders.changed(builder, final(self)@.param_builders)
                &&& final(self)@.param_builders.live[builder]@ == old(
                    self,
                )@.param_builders.live[builder]@.push(ParamView::Commands)
            },
            !ok ==> final(self)@ == old(self)@,
    {
        let ok = match self.param_builders.get_mut(builder) {
            Ok(target) => {
                target.add_commands();
                true
            },
            Err(_) => false,
        };
        proof {
            if ok {
                assert(self@.param_builders.live.dom() =~= old(self)@.param_builders.live.dom());
            }
        }
        ok
    }

    /// Adds deferred access to the world as a parameter to the builder
    /// behind `builder`. `false`, and no change, where the handle is not
    /// valid.
    pub fn param_builder_add_deferred_world(&mut self, builder: Handle<param_builder>) -> (ok: bool)
        requires
            old(self).wf(),
        ensures
            final(self).wf(),
            ok == old(self)@.param_builders.live.dom().contains(builder),
            final(self)@ == (SystemTablesView {
                param_builders: final(self)@.param_builders,
                ..old(self)@
            }),
            ok ==> {
                &&& old(self)@.param_builders.changed(builder, final(self)@.param_builders)
                &&& final(self)@.param_builders.live[builder]@ == old(
                    self,
                )@.param_builders.live[builder]@.push(ParamView::DeferredWorld)
            },
            !ok ==> final(self)@ == old(self)@,
    {
        let ok = match self.param_builders.get_mut(builder) {
            Ok(target) => {
                target.add_deferred_world();
                true
            },
            Err(_) => false,
        };
        proof {
            if ok {
                assert(self@.param_builders.live.dom() =~= old(self)@.param_builders.live.dom());
            }
        }
        ok
    }

    /// Destroys the parameter builder behind `builder`. `false`, and no
    /// change, where the handle is not valid.
    pub fn param_builder_drop(&mut self, builder: Handle<param_builder>) -> (ok: bool)
        requires
            old(self).wf(),
        ensures
            final(self).wf(),
            ok == old(self)@.param_builders.live.dom().contains(builder),
            final(self)@ == (SystemTablesView {
                param_builders: old(self)@.param_builders.remove(builder),
                ..old(self)@
            }),
    {
        let ok = self.param_builders.remove(builder).is_ok();
        proof {
            Self::lemma_frame(old(self)@, self@);
        }
        ok
    }

    /// Turns the parameter builder behind `builder` into a system state
    /// and answers with the handle of the state, which belongs to whom the
    /// builder belonged. The builder is handed over: its handle is stale
    /// from now on, whether the build succeeds or not. The build fails where the handle is not valid, where the
    /// parameters do not pass the check against `world`, and where no more
    /// states can be stored.
    pub fn param_builder_build(&mut self, builder: Handle<param_builder>, world: &World) -> (r: Option<
        Handle<system_state>,
    >)
        requires
            old(self).wf(),
        ensures
            final(self).wf(),
            r is Some <==> {
                &&& old(self)@.param_builders.live.dom().contains(builder)
                &&& check_params(old(self)@.param_builders.live[builder]@, world@) is Ok
                &&& old(self).system_room() > 0
            },
            final(self)@ == (SystemTablesView {
                param_builders: old(self)@.param_builders.remove(builder),
                systems: final(self)@.systems,
                ..old(self)@
            }),
            match r {
                Some(state) => {
                    let slot = final(self)@.systems.live[state];
                    &&& old(self)@.systems.added(state, final(self)@.systems)
                    &&& slot.state@.params == old(self)@.param_builders.live[builder]@
                    &&& slot.state@.pending == Seq::<Callback>::empty()
                    &&& !slot.state@.fetched
                    &&& slot.callback is None
                    &&& slot.handed@ == Seq::<Handle<dyn_system_param>>::empty()
                    &&& final(self)@.systems.owners[state] == old(self)@.param_builders.owners[builder]
                },
                None => final(self)@.systems == old(self)@.systems,
            },
    {
        let owner = match self.param_builders.owner_of(builder) {
            Ok(owner) => owner,
            Err(_) => {
                return None;
            },
        };
        let object = match self.param_builders.remove(builder) {
            Ok(object) => object,
            Err(_) => {
                return None;
            },
        };
        match object.build(world) {
            Ok(state) => {
                let r = self.systems.insert(
                    SystemSlot { state, callback: None, handed: Vec::new() },
                    owner,
                );
                proof {
                    match r {
                        Some(h) => {
                            assert forall|s: Handle<system_state>| #[trigger]
                                self@.systems.live.dom().contains(s) implies self@.slot_ok(s) by {
                                if s != h {
                                    assert(old(self)@.systems.live.dom().contains(s));
                                    assert(old(self)@.slot_ok(s));
                                }
                            }
                        },
                        None => {},
                    }
                }
                r
            },
            Err(_) => None,
        }
    }

    /// Hands out the parameters of the slot behind `s`, which must be a
    /// bound system if `built` is set and a bare state if not.
    fn fetch(&mut self, s: Handle<system_state>, world: &World, built: bool) -> (r: Option<
        Vec<Handle<dyn_system_param>>,
    >)
        requires
            old(self).wf(),
        ensures
            final(self).wf(),
            r is Some <==> {
                &&& old(self)@.systems.live.dom().contains(s)
                &&& (old(self)@.systems.live[s].callback is Some) == built
                &&& old(self)@.systems.live[s].state@.check_get(world@) is Ok
                &&& old(self).param_room() >= old(self)@.systems.live[s].state@.params.len()
            },
            match r {
                Some(handles) => old(self)@.fetched(s, handles@, final(self)@),
                None => final(self)@ == old(self)@,
            },
    {
        let (n, is_built, ready) = match self.systems.get(s) {
            Ok(slot) => (slot.state.param_count(), slot.callback.is_some(), slot.state.can_get(world)),
            Err(_) => {
                return None;
            },
        };
        let owner = match self.systems.owner_of(s) {
            Ok(owner) => owner,
            Err(_) => {
                return None;
            },
        };
        if is_built != built || !ready || !self.params.has_room_for(n) {
            return None;
        }
        let fetched = match self.systems.get_mut(s) {
            Ok(slot) => slot.state.get(world),
            Err(_) => {
                return None;
            },
        };
        let mut params = match fetched {
            Ok(params) => params,
            Err(_) => {
                return None;
            },
        };
        let ghost before = old(self)@.systems.live[s];
        let ghost all = params@;
        assert(all.len() == n) by {
            assert(dyn_views(all).len() == all.len());
            assert(crate::system::param::fresh_params(before.state@.params).len()
                == before.state@.params.len());
        }
        assert(self@.systems.live.dom() =~= old(self)@.systems.live.dom());
        let ghost mid = self@.systems;
        let mut handles: Vec<Handle<dyn_system_param>> = Vec::new();
        let mut i: usize = 0;
        while params.len() > 0
            invariant
                self.param_builders.wf(),
                self.systems.wf(),
                self.params.wf(),
                self.param_builders@ == old(self)@.param_builders,
                self.systems@ == mid,
                i + params.len() == n,
                n == all.len(),
                handles@.len() == i,
                params@ == all.skip(i as int),
                self.params.room() >= params.len(),
                self.params@.retired == old(self)@.params.retired,
                handles@.no_duplicates(),
                forall|p: Handle<dyn_system_param>|
                    #[trigger] self.params@.live.dom().contains(p) <==> (old(
                        self,
                    )@.params.live.dom().contains(p) || handles@.contains(p)),
                forall|p: Handle<dyn_system_param>| #[trigger]
                    old(self)@.params.live.dom().contains(p) ==> self.params@.live[p] == old(
                        self,
                    )@.params.live[p] && self.params@.owners[p] == old(self)@.params.owners[p],
                forall|k: int|
                    0 <= k < i ==> {
                        let p = #[trigger] handles@[k];
                        &&& !old(self)@.params.live.dom().contains(p)
                        &&& !old(self)@.params.retired.contains(p)
                        &&& p.generation() > 0
                        &&& self.params@.live[p].param == all[k]
                        &&& self.params@.live[p].owner == Some(s)
                        &&& !self.params@.live[p].taken
                        &&& self.params@.owners[p] == owner
                    },
            decreases params.len(),
        {
            let ghost table = self.params@;
            let ghost so_far = handles@;
            let param = params.remove(0);
            assert(param == all[i as int]);
            assert(params@ =~= all.skip(i + 1));
            let slot = ParamSlot { param, owner: Some(s), taken: false };
            let h = match self.params.insert(slot, owner) {
                Some(h) => h,
                None => {
                    return None;
                },
            };
            handles.push(h);
            proof {
                assert(table.inserted(slot, owner, h, self.params@));
                assert(!so_far.contains(h)) by {
                    if so_far.contains(h) {
                        assert(table.live.dom().contains(h));
                    }
                }
                assert forall|p: Handle<dyn_system_param>|
                    #[trigger] self.params@.live.dom().contains(p) <==> (old(
                        self,
                    )@.params.live.dom().contains(p) || handles@.contains(p)) by {
                    if handles@.contains(p) {
                        let j = choose|j: int| 0 <= j < handles@.len() && handles@[j] == p;
                        if j < so_far.len() {
                            assert(so_far[j] == p);
                            assert(so_far.contains(p));
                        }
                    }
                    if table.live.dom().contains(p) && !old(self)@.params.live.dom().contains(p) {
                        assert(so_far.contains(p));
                        let j = choose|j: int| 0 <= j < so_far.len() && so_far[j] == p;
                        assert(handles@[j] == p);
                    }
                    if p == h {
                        assert(handles@[so_far.len() as int] == h);
                    }
                }
                assert forall|k: int| 0 <= k < i + 1 implies {
                    let p = #[trigger] handles@[k];
                    &&& !old(self)@.params.live.dom().contains(p)
                    &&& !old(self)@.params.retired.contains(p)
                    &&& p.generation() > 0
                    &&& self.params@.live[p].param == all[k]
                    &&& self.params@.live[p].owner == Some(s)
                    &&& !self.params@.live[p].taken
                    &&& self.params@.owners[p] == owner
                } by {
                    if k < i {
                        assert(handles@[k] == so_far[k]);
                        assert(so_far.contains(so_far[k]));
                        assert(table.live.dom().contains(so_far[k]));
                    }
                }
                assert forall|a: int, b: int|
                    0 <= a < handles@.len() && 0 <= b < handles@.len() && a != b implies handles@[a]
                    != handles@[b] by {
                    if a < so_far.len() {
                        assert(so_far.contains(so_far[a]));
                    }
                    if b < so_far.len() {
                        assert(so_far.contains(so_far[b]));
                    }
                }
            }
            i += 1;
        }
        let copy = copy_handles(&handles);
        match self.systems.get_mut(s) {
            Ok(slot) => {
                slot.handed = copy;
            },
            Err(_) => {},
        }
        proof {
            let after = self@;
            assert(after.systems.live.dom() =~= old(self)@.systems.live.dom());
            assert(dyn_views(all) == crate::system::param::fresh_params(before.state@.params));
            assert forall|k: int| 0 <= k < handles@.len() implies {
                let p = #[trigger] handles@[k];
                &&& after.params.live[p].param@ == before.state@.params[k].fresh()
                &&& after.params.live[p].param@.kind() == before.state@.params[k].kind()
            } by {
                assert(dyn_views(all)[k] == all[k]@);
            }
            assert(old(self)@.fetched(s, handles@, after));
            assert forall|t: Handle<system_state>| #[trigger]
                after.systems.live.dom().contains(t) implies after.slot_ok(t) by {
                if t != s {
                    assert(old(self)@.systems.live.dom().contains(t));
                    assert(old(self)@.slot_ok(t));
                    let slot = after.systems.live[t];
                    assert(slot == old(self)@.systems.live[t]);
                    assert forall|k: int| 0 <= k < slot.handed@.len() implies {
                        let p = #[trigger] slot.handed@[k];
                        &&& after.params.live.dom().contains(p)
                        &&& after.params.live[p].owner == Some(t)
                        &&& after.params.live[p].param@.kind() == slot.state@.params[k].kind()
                        &&& after.params.owners[p] == after.systems.owners[t]
                    } by {
                        let p = slot.handed@[k];
                        assert(old(self)@.params.live.dom().contains(p));
                    }
                }
            }
        }
        Some(handles)
    }

    /// Takes back the parameters of the slot behind `s`, which must be a
    /// bound system if `built` is set and a bare state if not.
    fn release(&mut self, s: Handle<system_state>, built: bool) -> (ok: bool)
        requires
            old(self).wf(),
        ensures
            final(self).wf(),
            ok == {
                &&& old(self)@.systems.live.dom().contains(s)
                &&& (old(self)@.systems.live[s].callback is Some) == built
                &&& old(self)@.systems.live[s].state@.fetched
            },
            ok ==> old(self)@.released(s, final(self)@),
            !ok ==> final(self)@ == old(self)@,
            final(self).system_room() == old(self).system_room(),
    {
        let (is_built, is_fetched) = match self.systems.get(s) {
            Ok(slot) => (slot.callback.is_some(), slot.state.is_fetched()),
            Err(_) => {
                return false;
            },
        };
        if is_built != built || !is_fetched {
            return false;
        }
        let ghost before = old(self)@.systems.live[s];
        proof {
            assert(old(self)@.slot_ok(s));
        }
        let handed = match self.systems.get_mut(s) {
            Ok(slot) => {
                let mut handed: Vec<Handle<dyn_system_param>> = Vec::new();
                core::mem::swap(&mut handed, &mut slot.handed);
                handed
            },
            Err(_) => Vec::new(),
        };
        assert(handed@ == before.handed@);
        assert(self@.systems.live.dom() =~= old(self)@.systems.live.dom());
        proof {
            self.params.law_valid_and_stale_never_meet();
        }
        let ghost mid = self@.systems;
        let mut collected: Vec<DynParam> = Vec::new();
        let mut k: usize = 0;
        while k < handed.len()
            invariant
                self.param_builders.wf(),
                self.systems.wf(),
                self.params.wf(),
                self.param_builders@ == old(self)@.param_builders,
                self.systems@ == mid,
                self.systems.room() == old(self).systems.room(),
                k <= handed.len(),
                handed@ == before.handed@,
                old(self)@.slot_ok(s),
                old(self)@.systems.live.dom().contains(s),
                before == old(self)@.systems.live[s],
                collected@.len() == k,
                forall|j: int|
                    0 <= j < k ==> #[trigger] collected@[j] == old(
                        self,
                    )@.params.live[handed@[j]].param,
                forall|p: Handle<dyn_system_param>|
                    #[trigger] self.params@.live.dom().contains(p) <==> (old(
                        self,
                    )@.params.live.dom().contains(p) && !handed@.take(k as int).contains(p)),
                forall|p: Handle<dyn_system_param>| #[trigger]
                    self.params@.live.dom().contains(p) ==> self.params@.live[p] == old(
                        self,
                    )@.params.live[p] && self.params@.owners[p] == old(self)@.params.owners[p],
                forall|p: Handle<dyn_system_param>|
                    #[trigger] self.params@.owners.dom().contains(p) <==> self.params@.live.dom().contains(
                        p,
                    ),
                forall|p: Handle<dyn_system_param>|
                    #[trigger] self.params@.retired.contains(p) <==> (old(
                        self,
                    )@.params.retired.contains(p) || handed@.take(k as int).contains(p)),
            decreases handed.len() - k,
        {
            let ghost table = self.params@;
            let h = handed[k];
            proof {
                assert(old(self)@.params.live.dom().contains(handed@[k as int]));
                if handed@.take(k as int).contains(h) {
                    let j = choose|j: int|
                        0 <= j < handed@.take(k as int).len() && handed@.take(k as int)[j] == h;
                    assert(handed@[j] == handed@[k as int]);
                }
                assert(table.live.dom().contains(h));
            }
            match self.params.remove(h) {
                Ok(slot) => {
                    collected.push(slot.param);
                },
                Err(_) => {},
            }
            proof {
                let done = handed@.take(k as int);
                let next = handed@.take(k + 1);
                assert(next =~= done.push(h));
                assert forall|p: Handle<dyn_system_param>| next.contains(p) <==> (done.contains(p)
                    || p == h) by {
                    if done.contains(p) {
                        let j = choose|j: int| 0 <= j < done.len() && done[j] == p;
                        assert(next[j] == p);
                    }
                    if p == h {
                        assert(next[k as int] == h);
                    }
                    if next.contains(p) {
                        let j = choose|j: int| 0 <= j < next.len() && next[j] == p;
                        if j < k {
                            assert(done[j] == p);
                        }
                    }
                }
            }
            k += 1;
        }
        assert(handed@.take(handed.len() as int) =~= handed@);
        let ghost params = collected@;
        proof {
            assert(dyn_views(params) =~= old(self)@.handed_params(s));
            assert(crate::system::param::same_kinds(before.state@.params, dyn_views(params))) by {
                assert forall|j: int| 0 <= j < before.state@.params.len() implies before.state@.params[j].kind()
                    == (#[trigger] dyn_views(params)[j]).kind() by {
                    let p = before.handed@[j];
                    assert(old(self)@.params.live[p].param@.kind() == before.state@.params[j].kind());
                }
            }
        }
        match self.systems.get_mut(s) {
            Ok(slot) => {
                let _ = slot.state.release(collected);
            },
            Err(_) => {},
        }
        proof {
            let after = self@;
            let set = old(self)@.handed_set(s);
            assert(after.systems.live.dom() =~= old(self)@.systems.live.dom());
            assert(after.params.live =~= old(self)@.params.live.remove_keys(set));
            assert(after.params.retired =~= old(self)@.params.retired.union(set));
            assert(after.params.owners =~= old(self)@.params.owners.remove_keys(set)) by {
                old(self).params.law_valid_and_stale_never_meet();
            }
            assert(old(self)@.released(s, after));
            assert forall|t: Handle<system_state>| #[trigger]
                after.systems.live.dom().contains(t) implies after.slot_ok(t) by {
                if t != s {
                    assert(old(self)@.systems.live.dom().contains(t));
                    assert(old(self)@.slot_ok(t));
                    let slot = after.systems.live[t];
                    assert(slot == old(self)@.systems.live[t]);
                    assert forall|j: int| 0 <= j < slot.handed@.len() implies {
                        let p = #[trigger] slot.handed@[j];
                        &&& after.params.live.dom().contains(p)
                        &&& after.params.live[p].owner == Some(t)
                        &&& after.params.live[p].param@.kind() == slot.state@.params[j].kind()
                        &&& after.params.owners[p] == after.systems.owners[t]
                    } by {
                        let p = slot.handed@[j];
                        let was = old(self)@.systems.live[t];
                        assert(was.handed@[j] == p);
                        assert(old(self)@.params.live.dom().contains(p));
                        assert(old(self)@.params.live[p].owner == Some(t));
                        assert(!before.handed@.contains(p)) by {
                            if before.handed@.contains(p) {
                                let i = choose|i: int|
                                    0 <= i < before.handed@.len() && before.handed@[i] == p;
                                assert(old(self)@.params.live[before.handed@[i]].owner == Some(s));
                            }
                        }
                        assert(after.params.live.dom().contains(p));
                    }
                }
            }
        }
        true
    }

    /// Hands out the parameters of the system state behind `state`: one
    /// handle for each declared parameter, in the order of the
    /// declarations. `None`, and no change, where the handle is not valid
    /// or stands for a bound system, where the state turns the fetch down,
    /// and where the parameters cannot all be stored.
    pub fn system_state_get(&mut self, state: Handle<system_state>, world: &World) -> (r: Option<
        Vec<Handle<dyn_system_param>>,
    >)
        requires
            old(self).wf(),
        ensures
            final(self).wf(),
            r is Some <==> {
                &&& old(self)@.systems.live.dom().contains(state)
                &&& old(self)@.systems.live[state].callback is None
                &&& old(self)@.systems.live[state].state@.check_get(world@) is Ok
                &&& old(self).param_room() >= old(self)@.systems.live[state].state@.params.len()
            },
            match r {
                Some(handles) => old(self)@.fetched(state, handles@, final(self)@),
                None => final(self)@ == old(self)@,
            },
    {
        self.fetch(state, world, false)
    }

    /// Takes back every parameter that the system state behind `state` has
    /// out and destroys it; the commands queued in them now wait in the
    /// state. `false`, and no change, where the handle is not valid or
    /// stands for a bound system, and where nothing is out.
    pub fn dyn_system_params_drop(&mut self, state: Handle<system_state>) -> (ok: bool)
        requires
            old(self).wf(),
        ensures
            final(self).wf(),
            ok == {
                &&& old(self)@.systems.live.dom().contains(state)
                &&& old(self)@.systems.live[state].callback is None
                &&& old(self)@.systems.live[state].state@.fetched
            },
            ok ==> old(self)@.released(state, final(self)@),
            !ok ==> final(self)@ == old(self)@,
    {
        self.release(state, false)
    }

    /// Hands over the commands that wait in the state or system behind
    /// `state`, oldest first, for the caller to run each of them once, in
    /// that order. `None`, and no change, where the handle is not valid.
    pub fn system_state_apply(&mut self, state: Handle<system_state>) -> (r: Option<Vec<Callback>>)
        requires
            old(self).wf(),
        ensures
            final(self).wf(),
            r is Some <==> old(self)@.systems.live.dom().contains(state),
            final(self)@ == (SystemTablesView { systems: final(self)@.systems, ..old(self)@ }),
            match r {
                Some(commands) => {
                    let before = old(self)@.systems.live[state];
                    let after = final(self)@.systems.live[state];
                    &&& commands@ == before.state@.pending
                    &&& old(self)@.systems.changed(state, final(self)@.systems)
                    &&& after.state@ == (SystemStateView { pending: Seq::empty(), ..before.state@ })
                    &&& after.callback == before.callback
                    &&& after.handed == before.handed
                },
                None => final(self)@ == old(self)@,
            },
    {
        let r = match self.systems.get_mut(state) {
            Ok(slot) => Some(slot.state.apply()),
            Err(_) => None,
        };
        proof {
            if r is Some {
                let after = self@;
                assert(after.systems.live.dom() =~= old(self)@.systems.live.dom());
                assert forall|t: Handle<system_state>| #[trigger]
                    after.systems.live.dom().contains(t) implies after.slot_ok(t) by {
                    assert(old(self)@.systems.live.dom().contains(t));
                    assert(old(self)@.slot_ok(t));
                }
            }
        }
        r
    }

    /// Binds the system state behind `state` to the guest function that is
    /// the system's body, and answers with the handle of the system, which
    /// belongs to whom the state belonged. The state is handed over: its
    /// handle is stale from now on. `None`, and
    /// no change, where the handle is not valid or stands for a bound
    /// system, where parameters are out or commands wait, and where no more
    /// systems can be stored.
    pub fn system_state_build(&mut self, state: Handle<system_state>, callback: Callback) -> (r:
        Option<Handle<system>>)
        requires
            old(self).wf(),
        ensures
            final(self).wf(),
            r is Some <==> {
                &&& old(self)@.systems.live.dom().contains(state)
                &&& old(self)@.systems.live[state].callback is None
                &&& old(self)@.systems.live[state].state@.check_build() is Ok
                &&& old(self).system_room() > 0
            },
            final(self)@ == (SystemTablesView { systems: final(self)@.systems, ..old(self)@ }),
            match r {
                Some(system) => {
                    let before = old(self)@.systems.live[state];
                    let bound = system.cast_spec::<system_state>();
                    let after = final(self)@.systems.live[bound];
                    &&& old(self)@.systems.remove(state).added(bound, final(self)@.systems)
                    &&& after.state@ == before.state@
                    &&& after.callback == Some(callback)
                    &&& after.handed@ == Seq::<Handle<dyn_system_param>>::empty()
                    &&& final(self)@.systems.owners[bound] == old(self)@.systems.owners[state]
                },
                None => final(self)@ == old(self)@,
            },
    {
        let ready = match self.systems.get(state) {
            Ok(slot) => slot.callback.is_none() && !slot.state.is_fetched() && slot.state.pending_count()
                == 0,
            Err(_) => false,
        };
        if !ready || !self.systems.has_room_for(1) {
            return None;
        }
        let owner = match self.systems.owner_of(state) {
            Ok(owner) => owner,
            Err(_) => {
                return None;
            },
        };
        let slot = match self.systems.remove(state) {
            Ok(slot) => slot,
            Err(_) => {
                return None;
            },
        };
        let ghost removed = self@;
        let bound = SystemSlot { state: slot.state, callback: Some(callback), handed: Vec::new() };
        let r = match self.systems.insert(bound, owner) {
            Some(h) => Some(h.cast::<system>()),
            None => None,
        };
        proof {
            let after = self@;
            match r {
                Some(system) => {
                    let h = system.cast_spec::<system_state>();
                    assert forall|t: Handle<system_state>| #[trigger]
                        after.systems.live.dom().contains(t) implies after.slot_ok(t) by {
                        if t != h {
                            assert(removed.systems.live.dom().contains(t));
                            assert(old(self)@.systems.live.dom().contains(t));
                            assert(old(self)@.slot_ok(t));
                        }
                    }
                },
                None => {},
            }
        }
        r
    }

    /// Starts a run of the system behind `system`: hands its parameters
    /// out and answers with the call that the host owes the body. `None`,
    /// and no change, where the handle is not valid or stands for a bare
    /// state, where the state turns the fetch down, and where the
    /// parameters cannot all be stored.
    pub fn world_run_system(&mut self, system: Handle<system>, world: &World) -> (r: Option<SystemCall>)
        requires
            old(self).wf(),
        ensures
            final(self).wf(),
            r is Some <==> {
                let s = system.cast_spec::<system_state>();
                &&& old(self)@.systems.live.dom().contains(s)
                &&& old(self)@.systems.live[s].callback is Some
                &&& old(self)@.systems.live[s].state@.check_get(world@) is Ok
                &&& old(self).param_room() >= old(self)@.systems.live[s].state@.params.len()
            },
            match r {
                Some(call) => {
                    let s = system.cast_spec::<system_state>();
                    &&& old(self)@.fetched(s, call.params@, final(self)@)
                    &&& Some(call.callback) == old(self)@.systems.live[s].callback
                },
                None => final(self)@ == old(self)@,
            },
    {
        let s = system.cast::<system_state>();
        let callback = match self.systems.get(s) {
            Ok(slot) => match slot.callback {
                Some(callback) => callback,
                None => {
                    return None;
                },
            },
            Err(_) => {
                return None;
            },
        };
        match self.fetch(s, world, true) {
            Some(params) => Some(SystemCall { callback, params }),
            None => None,
        }
    }

    /// Ends a run of the system behind `system` after the body returned:
    /// takes its parameters back, destroys them, and answers with the
    /// commands to run now, oldest first. `None`, and no change, where the
    /// handle is not valid or stands for a bare state, and where no run is
    /// under way.
    pub fn system_finish_run(&mut self, system: Handle<system>) -> (r: Option<Vec<Callback>>)
        requires
            old(self).wf(),
        ensures
            final(self).wf(),
            r is Some <==> {
                let s = system.cast_spec::<system_state>();
                &&& old(self)@.systems.live.dom().contains(s)
                &&& old(self)@.systems.live[s].callback is Some
                &&& old(self)@.systems.live[s].state@.fetched
            },
            match r {
                Some(commands) => {
                    let s = system.cast_spec::<system_state>();
                    let before = old(self)@.systems.live[s];
                    let after = final(self)@.systems.live[s];
                    &&& commands@ == before.state@.pending + queued(old(self)@.handed_params(s))
                    &&& old(self)@.systems.changed(s, final(self)@.systems)
                    &&& after.state@ == (SystemStateView {
                        pending: Seq::empty(),
                        fetched: false,
                        ..before.state@
                    })
                    &&& after.callback == before.callback
                    &&& after.handed@ == Seq::<Handle<dyn_system_param>>::empty()
                    &&& final(self)@.param_builders == old(self)@.param_builders
                    &&& old(self)@.params_released(s, final(self)@)
                },
                None => final(self)@ == old(self)@,
            },
    {
        let s = system.cast::<system_state>();
        if !self.release(s, true) {
            return None;
        }
        let r = self.system_state_apply(s);
        proof {
            assert(self@.systems.live.dom() =~= old(self)@.systems.live.dom());
        }
        r
    }

    /// Destroys the slot behind `s`, which must be a bound system if
    /// `built` is set and a bare state if not, and with it the parameters
    /// it has out.
    fn discard(&mut self, s: Handle<system_state>, built: bool) -> (ok: bool)
        requires
            old(self).wf(),
        ensures
            final(self).wf(),
            ok == {
                &&& old(self)@.systems.live.dom().contains(s)
                &&& (old(self)@.systems.live[s].callback is Some) == built
            },
            ok ==> {
                &&& final(self)@.systems == old(self)@.systems.remove(s)
                &&& final(self)@.param_builders == old(self)@.param_builders
                &&& if old(self)@.systems.live[s].state@.fetched {
                    old(self)@.params_released(s, final(self)@)
                } else {
                    final(self)@.params == old(self)@.params
                }
            },
            !ok ==> final(self)@ == old(self)@,
    {
        let is_built = match self.systems.get(s) {
            Ok(slot) => slot.callback.is_some(),
            Err(_) => {
                return false;
            },
        };
        if is_built != built {
            return false;
        }
        let _ = self.release(s, built);
        let ghost mid = self@;
        let _ = self.systems.remove(s);
        proof {
            let after = self@;
            assert(after.systems.live =~= old(self)@.systems.remove(s).live);
            assert(after.systems.retired =~= old(self)@.systems.remove(s).retired);
            assert forall|t: Handle<system_state>| #[trigger]
                after.systems.live.dom().contains(t) implies after.slot_ok(t) by {
                assert(mid.systems.live.dom().contains(t));
                assert(mid.slot_ok(t));
            }
        }
        true
    }

    /// Destroys the system state behind `state`, and with it the
    /// parameters it has out. `false`, and no change, where the handle is
    /// not valid or stands for a bound system.
    pub fn system_state_drop(&mut self, state: Handle<system_state>) -> (ok: bool)
        requires
            old(self).wf(),
        ensures
            final(self).wf(),
            ok == {
                &&& old(self)@.systems.live.dom().contains(state)
                &&& old(self)@.systems.live[state].callback is None
            },
            ok ==> {
                &&& final(self)@.systems == old(self)@.systems.remove(state)
                &&& final(self)@.param_builders == old(self)@.param_builders
                &&& if old(self)@.systems.live[state].state@.fetched {
                    old(self)@.params_released(state, final(self)@)
                } else {
                    final(self)@.params == old(self)@.params
                }
            },
            !ok ==> final(self)@ == old(self)@,
    {
        self.discard(state, false)
    }

    /// Destroys the system behind `system`, and with it the parameters it
    /// has out. `false`, and no change, where the handle is not valid or
    /// stands for a bare state.
    pub fn system_drop(&mut self, system: Handle<system>) -> (ok: bool)
        requires
            old(self).wf(),
        ensures
            final(self).wf(),
            ok == {
                let s = system.cast_spec::<system_state>();
                &&& old(self)@.systems.live.dom().contains(s)
                &&& old(self)@.systems.live[s].callback is Some
            },
            ok ==> {
                let s = system.cast_spec::<system_state>();
                &&& final(self)@.systems == old(self)@.systems.remove(s)
                &&& final(self)@.param_builders == old(self)@.param_builders
                &&& if old(self)@.systems.live[s].state@.fetched {
                    old(self)@.params_released(s, final(self)@)
                } else {
                    final(self)@.params == old(self)@.params
                }
            },
            !ok ==> final(self)@ == old(self)@,
    {
        self.discard(system.cast::<system_state>(), true)
    }

    /// Takes the system state behind `state` out of the tables, to hand it
    /// over to an observer. `None`, and no change, where the handle is not
    /// valid or stands for a bound system, and where parameters are out or
    /// commands wait.
    pub fn take_system_state(&mut self, state: Handle<system_state>) -> (r: Option<SystemState>)
        requires
            old(self).wf(),
        ensures
            final(self).wf(),
            r is Some <==> {
                &&& old(self)@.systems.live.dom().contains(state)
                &&& old(self)@.systems.live[state].callback is None
                &&& old(self)@.systems.live[state].state@.check_build() is Ok
            },
            match r {
                Some(object) => {
                    &&& object == old(self)@.systems.live[state].state
                    &&& final(self)@ == (SystemTablesView {
                        systems: old(self)@.systems.remove(state),
                        ..old(self)@
                    })
                },
                None => final(self)@ == old(self)@,
            },
    {
        let ready = match self.systems.get(state) {
            Ok(slot) => slot.callback.is_none() && !slot.state.is_fetched() && slot.state.pending_count()
                == 0,
            Err(_) => false,
        };
        if !ready {
            return None;
        }
        let r = match self.systems.remove(state) {
            Ok(slot) => Some(slot.state),
            Err(_) => None,
        };
        proof {
            let after = self@;
            assert forall|t: Handle<system_state>| #[trigger]
                after.systems.live.dom().contains(t) implies after.slot_ok(t) by {
                assert(old(self)@.systems.live.dom().contains(t));
                assert(old(self)@.slot_ok(t));
            }
        }
        r
    }

    /// Destroys every object that belongs to `owner`: parameter builders,
    /// system states and systems, and parameters, those that are out with
    /// the states that have them out. This is what becomes of the handles
    /// of a library that is unloaded: all of them are stale from now on.
    pub fn purge(&mut self, owner: u64)
        requires
            old(self).wf(),
        ensures
            final(self).wf(),
            final(self)@ == (SystemTablesView {
                param_builders: old(self)@.param_builders.purge(owner),
                systems: old(self)@.systems.purge(owner),
                params: old(self)@.params.purge(owner),
            }),
    {
        proof {
            self.systems.law_valid_and_stale_never_meet();
            self.params.law_valid_and_stale_never_meet();
        }
        self.param_builders.purge(owner);
        self.systems.purge(owner);
        self.params.purge(owner);
        proof {
            let before = old(self)@;
            let after = self@;
            assert forall|t: Handle<system_state>| #[trigger]
                after.systems.live.dom().contains(t) implies after.slot_ok(t) by {
                assert(before.systems.live.dom().contains(t));
                assert(before.slot_ok(t));
                let slot = after.systems.live[t];
                assert forall|k: int| 0 <= k < slot.handed@.len() implies {
                    let p = #[trigger] slot.handed@[k];
                    &&& after.params.live.dom().contains(p)
                    &&& after.params.live[p].owner == Some(t)
                    &&& after.params.live[p].param@.kind() == slot.state@.params[k].kind()
                    &&& after.params.owners[p] == after.systems.owners[t]
                } by {
                    let p = slot.handed@[k];
                    assert(!before.systems.owned_by(owner).contains(t));
                    assert(before.systems.owners[t] != owner);
                    assert(before.params.live.dom().contains(p));
                    assert(before.params.owners[p] == before.systems.owners[t]);
                    assert(!before.params.owned_by(owner).contains(p));
                    assert(after.params.live.dom().contains(p));
                    assert(after.params.live[p] == before.params.live[p]);
                    assert(after.params.owners[p] == before.params.owners[p]);
                    assert(after.systems.owners[t] == before.systems.owners[t]);
                }
            }
        }
    }

    /// States stay in order where the slots did not change and every
    /// parameter that a fetch made is still there, made by the same state
    /// and of the same kind.
    proof fn lemma_params_kept(before: SystemTablesView, after: SystemTablesView)
        requires
            before.systems == after.systems,
            forall|s: Handle<system_state>| #[trigger]
                before.systems.live.dom().contains(s) ==> before.slot_ok(s),
            forall|p: Handle<dyn_system_param>|
                #[trigger] before.params.live.dom().contains(p) && before.params.live[p].owner is Some
                    ==> {
                    &&& after.params.live.dom().contains(p)
                    &&& after.params.live[p].owner == before.params.live[p].owner
                    &&& after.params.live[p].param@.kind() == before.params.live[p].param@.kind()
                    &&& after.params.owners[p] == before.params.owners[p]
                },
        ensures
            forall|s: Handle<system_state>| #[trigger]
                after.systems.live.dom().contains(s) ==> after.slot_ok(s),
    {
        assert forall|s: Handle<system_state>| #[trigger]
            after.systems.live.dom().contains(s) implies after.slot_ok(s) by {
            assert(before.systems.live.dom().contains(s));
            assert(before.slot_ok(s));
            let slot = after.systems.live[s];
            assert forall|k: int| 0 <= k < slot.handed@.len() implies {
                let p = #[trigger] slot.handed@[k];
                &&& after.params.live.dom().contains(p)
                &&& after.params.live[p].owner == Some(s)
                &&& after.params.live[p].param@.kind() == slot.state@.params[k].kind()
                &&& after.params.owners[p] == after.systems.owners[s]
            } by {
                let p = slot.handed@[k];
                assert(before.params.live.dom().contains(p));
                assert(before.params.live[p].owner == Some(s));
            }
        }
    }

    /// Marks the parameter behind `p` as downcast to `kind`.
    fn downcast(&mut self, p: Handle<dyn_system_param>, kind: ParamKind) -> (ok: bool)
        requires
            old(self).wf(),
        ensures
            final(self).wf(),
            ok == old(self)@.param_is(p, kind, false),
            final(self)@ == (SystemTablesView { params: final(self)@.params, ..old(self)@ }),
            ok ==> {
                &&& old(self)@.params.changed(p, final(self)@.params)
                &&& final(self)@.params.live[p].param == old(self)@.params.live[p].param
                &&& final(self)@.params.live[p].owner == old(self)@.params.live[p].owner
                &&& final(self)@.params.live[p].taken
            },
            !ok ==> final(self)@ == old(self)@,
            final(self).param_room() == old(self).param_room(),
    {
        let ready = match self.params.get(p) {
            Ok(slot) => !slot.taken && slot.param.kind().same_as(kind),
            Err(_) => false,
        };
        if !ready {
            return false;
        }
        match self.params.get_mut(p) {
            Ok(slot) => {
                slot.taken = true;
            },
            Err(_) => {},
        }
        proof {
            assert(self@.params.live.dom() =~= old(self)@.params.live.dom());
            Self::lemma_params_kept(old(self)@, self@);
        }
        true
    }

    /// Downcasts the parameter behind `param` to the query it is. Each
    /// parameter can be downcast once. `None`, and no change, where the
    /// handle is not valid, the parameter is no query, or it was downcast
    /// before.
    pub fn dyn_system_param_downcast_query(&mut self, param: Handle<dyn_system_param>) -> (r: Option<
        Handle<query>,
    >)
        requires
            old(self).wf(),
        ensures
            final(self).wf(),
            r is Some <==> old(self)@.param_is(param, ParamKind::Query, false),
            final(self)@ == (SystemTablesView { params: final(self)@.params, ..old(self)@ }),
            match r {
                Some(h) => {
                    &&& h == param.cast_spec::<query>()
                    &&& old(self)@.params.changed(param, final(self)@.params)
                    &&& final(self)@.params.live[param].param == old(self)@.params.live[param].param
                    &&& final(self)@.params.live[param].owner == old(self)@.params.live[param].owner
                    &&& final(self)@.params.live[param].taken
                },
                None => final(self)@ == old(self)@,
            },
    {
        if self.downcast(param, ParamKind::Query) {
            Some(param.cast::<query>())
        } else {
            None
        }
    }

    /// Downcasts the parameter behind `param` to the command queue it is.
    /// `None`, and no change, where the handle is not valid, the parameter
    /// is no command queue, or it was downcast before.
    pub fn dyn_system_param_downcast_commands(&mut self, param: Handle<dyn_system_param>) -> (r:
        Option<Handle<commands>>)
        requires
            old(self).wf(),
        ensures
            final(self).wf(),
            r is Some <==> old(self)@.param_is(param, ParamKind::Commands, false),
            final(self)@ == (SystemTablesView { params: final(self)@.params, ..old(self)@ }),
            match r {
                Some(h) => {
                    &&& h == param.cast_spec::<commands>()
                    &&& old(self)@.params.changed(param, final(self)@.params)
                    &&& final(self)@.params.live[param].param == old(self)@.params.live[param].param
                    &&& final(self)@.params.live[param].owner == old(self)@.params.live[param].owner
                    &&& final(self)@.params.live[param].taken
                },
                None => final(self)@ == old(self)@,
            },
    {
        if self.downcast(param, ParamKind::Commands) {
            Some(param.cast::<commands>())
        } else {
            None
        }
    }

    /// Downcasts the parameter behind `param` to the deferred access it
    /// is. `None`, and no change, where the handle is not valid, the
    /// parameter is no deferred access, or it was downcast before.
    pub fn dyn_system_param_downcast_deferred_world(&mut self, param: Handle<dyn_system_param>) -> (r:
        Option<Handle<deferred_world>>)
        requires
            old(self).wf(),
        ensures
            final(self).wf(),
            r is Some <==> old(self)@.param_is(param, ParamKind::DeferredWorld, false),
            final(self)@ == (SystemTablesView { params: final(self)@.params, ..old(self)@ }),
            match r {
                Some(h) => {
                    &&& h == param.cast_spec::<deferred_world>()
                    &&& old(self)@.params.changed(param, final(self)@.params)
                    &&& final(self)@.params.live[param].param == old(self)@.params.live[param].param
                    &&& final(self)@.params.live[param].owner == old(self)@.params.live[param].owner
                    &&& final(self)@.params.live[param].taken
                },
                None => final(self)@ == old(self)@,
            },
    {
        if self.downcast(param, ParamKind::DeferredWorld) {
            Some(param.cast::<deferred_world>())
        } else {
            None
        }
    }

    /// A copy of the terms of the query behind `query`. `None` where the
    /// handle does not stand for a query that was downcast.
    pub fn query_terms(&self, query: Handle<query>) -> (r: Option<Vec<AccessTerm>>)
        requires
            self.wf(),
        ensures
            r is Some <==> self@.param_is(
                query.cast_spec::<dyn_system_param>(),
                ParamKind::Query,
                true,
            ),
            r matches Some(terms) ==> DynParamView::Query(terms@) == self@.params.live[query.cast_spec::<
                dyn_system_param,
            >()].param@,
    {
        match self.params.get(query.cast::<dyn_system_param>()) {
            Ok(slot) => {
                if !slot.taken {
                    return None;
                }
                match &slot.param {
                    DynParam::Query(object) => Some(object.terms()),
                    _ => None,
                }
            },
            Err(_) => None,
        }
    }

    /// Starts an iteration over the entities of `world` that answer the
    /// query behind `query` now, and answers with its handle. `None`, and
    /// no change, where the handle does not stand for a query that was
    /// downcast, and where no more iterations can be stored.
    pub fn query_iter_mut(&self, query: Handle<query>, queries: &mut QueryTables, world: &World) -> (r:
        Option<Handle<query_iter>>)
        requires
            self.wf(),
            old(queries).wf(),
        ensures
            final(queries).wf(),
            r is Some <==> {
                &&& self@.param_is(query.cast_spec::<dyn_system_param>(), ParamKind::Query, true)
                &&& old(queries).iter_room() > 0
            },
            final(queries)@ == (QueryTablesView { iters: final(queries)@.iters, ..old(queries)@ }),
            match r {
                Some(iter) => {
                    let object = final(queries)@.iters.live[iter];
                    &&& old(queries)@.iters.added(iter, final(queries)@.iters)
                    &&& DynParamView::Query(object.terms()) == self@.params.live[query.cast_spec::<
                        dyn_system_param,
                    >()].param@
                    &&& object.remaining() == matching(object.terms(), world@)
                    &&& object.position() == 0
                    &&& final(queries)@.iters.owners[iter] == self@.params.owners[query.cast_spec::<
                        dyn_system_param,
                    >()]
                },
                None => final(queries)@ == old(queries)@,
            },
    {
        let terms = match self.query_terms(query) {
            Some(terms) => terms,
            None => {
                return None;
            },
        };
        let owner = match self.query_owner(query) {
            Some(owner) => owner,
            None => {
                return None;
            },
        };
        let entities = crate::query::find_matching(&terms, world);
        queries.query_iter_new(entities, terms, owner)
    }

    /// Who the query behind `query` belongs to.
    pub fn query_owner(&self, query: Handle<query>) -> (r: Option<u64>)
        requires
            self.wf(),
        ensures
            r is Some <==> self@.params.live.dom().contains(query.cast_spec::<dyn_system_param>()),
            r matches Some(owner) ==> owner == self@.params.owners[query.cast_spec::<
                dyn_system_param,
            >()],
    {
        match self.params.owner_of(query.cast::<dyn_system_param>()) {
            Ok(owner) => Some(owner),
            Err(_) => None,
        }
    }

    /// Destroys the parameter behind `p` where it is of kind `kind` and no
    /// fetch made it. Parameters that a fetch made are destroyed when the
    /// fetch is released, and not before.
    fn drop_free(&mut self, p: Handle<dyn_system_param>, kind: ParamKind) -> (ok: bool)
        requires
            old(self).wf(),
        ensures
            final(self).wf(),
            ok == old(self)@.param_is_free(p, kind),
            final(self)@ == (if ok {
                SystemTablesView { params: old(self)@.params.remove(p), ..old(self)@ }
            } else {
                old(self)@
            }),
    {
        let ready = match self.params.get(p) {
            Ok(slot) => slot.owner.is_none() && slot.param.kind().same_as(kind),
            Err(_) => false,
        };
        if !ready {
            return false;
        }
        let _ = self.params.remove(p);
        proof {
            Self::lemma_params_kept(old(self)@, self@);
        }
        true
    }

    /// Destroys the query behind `query`. `false`, and no change, where
    /// the handle does not stand for a query, and where a fetch made the
    /// query: that one lives until the fetch is released.
    pub fn query_drop(&mut self, query: Handle<query>) -> (ok: bool)
        requires
            old(self).wf(),
        ensures
            final(self).wf(),
            ok == old(self)@.param_is_free(query.cast_spec::<dyn_system_param>(), ParamKind::Query),
            final(self)@ == (if ok {
                SystemTablesView {
                    params: old(self)@.params.remove(query.cast_spec::<dyn_system_param>()),
                    ..old(self)@
                }
            } else {
                old(self)@
            }),
    {
        self.drop_free(query.cast::<dyn_system_param>(), ParamKind::Query)
    }

    /// Queues `command` in the command queue behind `commands`, behind the
    /// commands queued before. Nothing runs yet. `false`, and no change,
    /// where the handle does not stand for a command queue that was
    /// downcast.
    pub fn commands_push(&mut self, commands: Handle<commands>, command: Callback) -> (ok: bool)
        requires
            old(self).wf(),
        ensures
            final(self).wf(),
            ok == old(self)@.param_is(
                commands.cast_spec::<dyn_system_param>(),
                ParamKind::Commands,
                true,
            ),
            final(self)@ == (SystemTablesView { params: final(self)@.params, ..old(self)@ }),
            ok ==> {
                let p = commands.cast_spec::<dyn_system_param>();
                &&& old(self)@.params.changed(p, final(self)@.params)
                &&& final(self)@.params.live[p].param@ == DynParamView::Commands(
                    old(self)@.params.live[p].param@.queued().push(command),
                )
                &&& final(self)@.params.live[p].owner == old(self)@.params.live[p].owner
                &&& final(self)@.params.live[p].taken
            },
            !ok ==> final(self)@ == old(self)@,
    {
        let p = commands.cast::<dyn_system_param>();
        let ready = match self.params.get(p) {
            Ok(slot) => slot.taken && slot.param.kind().same_as(ParamKind::Commands),
            Err(_) => false,
        };
        if !ready {
            return false;
        }
        match self.params.get_mut(p) {
            Ok(slot) => {
                match &mut slot.param {
                    DynParam::Commands(queue) => {
                        queue.push(command);
                    },
                    _ => {},
                }
            },
            Err(_) => {},
        }
        proof {
            assert(self@.params.live.dom() =~= old(self)@.params.live.dom());
            Self::lemma_params_kept(old(self)@, self@);
        }
        true
    }

    /// Makes deferred access to the world for `owner`, for the time of one
    /// hook or observer call, and answers with its handle. `None`, and no
    /// change, where no more parameters can be stored.
    pub fn deferred_world_new(&mut self, owner: u64) -> (r: Option<Handle<deferred_world>>)
        requires
            old(self).wf(),
        ensures
            final(self).wf(),
            r is Some <==> old(self).param_room() > 0,
            final(self)@ == (SystemTablesView { params: final(self)@.params, ..old(self)@ }),
            match r {
                Some(h) => {
                    let p = h.cast_spec::<dyn_system_param>();
                    &&& old(self)@.params.added(p, final(self)@.params)
                    &&& final(self)@.param_is(p, ParamKind::DeferredWorld, true)
                    &&& final(self)@.params.live[p].owner is None
                    &&& final(self)@.params.owners[p] == owner
                },
                None => final(self)@ == old(self)@,
            },
    {
        let slot = ParamSlot {
            param: DynParam::DeferredWorld(DeferredWorld::new()),
            owner: None,
            taken: true,
        };
        let r = match self.params.insert(slot, owner) {
            Some(p) => Some(p.cast::<deferred_world>()),
            None => None,
        };
        proof {
            if r is Some {
                Self::lemma_params_kept(old(self)@, self@);
            }
        }
        r
    }

    /// Whether `deferred` stands for deferred access that was downcast or
    /// made for a hook.
    pub fn deferred_world_check(&self, deferred: Handle<deferred_world>) -> (ok: bool)
        requires
            self.wf(),
        ensures
            ok == self@.param_is(
                deferred.cast_spec::<dyn_system_param>(),
                ParamKind::DeferredWorld,
                true,
            ),
    {
        match self.params.get(deferred.cast::<dyn_system_param>()) {
            Ok(slot) => slot.taken && slot.param.kind().same_as(ParamKind::DeferredWorld),
            Err(_) => false,
        }
    }

    /// Makes a query over the terms of the query state behind `state`, for
    /// the holder of the deferred access behind `deferred`, and answers
    /// with its handle, which belongs to whom the deferred access belongs. `None`, and no change, where either handle is not
    /// valid, and where no more parameters can be stored.
    pub fn deferred_world_query(
        &mut self,
        deferred: Handle<deferred_world>,
        queries: &QueryTables,
        state: Handle<query_state>,
    ) -> (r: Option<Handle<query>>)
        requires
            old(self).wf(),
            queries.wf(),
        ensures
            final(self).wf(),
            r is Some <==> {
                &&& old(self)@.param_is(
                    deferred.cast_spec::<dyn_system_param>(),
                    ParamKind::DeferredWorld,
                    true,
                )
                &&& queries@.states.live.dom().contains(state)
                &&& old(self).param_room() > 0
            },
            final(self)@ == (SystemTablesView { params: final(self)@.params, ..old(self)@ }),
            match r {
                Some(h) => {
                    let p = h.cast_spec::<dyn_system_param>();
                    &&& old(self)@.params.added(p, final(self)@.params)
                    &&& final(self)@.params.live[p].param@ == DynParamView::Query(
                        queries@.states.live[state]@,
                    )
                    &&& final(self)@.params.live[p].taken
                    &&& final(self)@.params.live[p].owner is None
                    &&& final(self)@.params.owners[p] == old(self)@.params.owners[deferred.cast_spec::<
                        dyn_system_param,
                    >()]
                },
                None => final(self)@ == old(self)@,
            },
    {
        if !self.deferred_world_check(deferred) {
            return None;
        }
        let owner = match self.params.owner_of(deferred.cast::<dyn_system_param>()) {
            Ok(owner) => owner,
            Err(_) => {
                return None;
            },
        };
        let terms = match queries.query_state_terms(state) {
            Some(terms) => terms,
            None => {
                return None;
            },
        };
        let slot = ParamSlot { param: DynParam::Query(Query::new(terms)), owner: None, taken: true };
        let r = match self.params.insert(slot, owner) {
            Some(p) => Some(p.cast::<query>()),
            None => None,
        };
        proof {
            if r is Some {
                Self::lemma_params_kept(old(self)@, self@);
            }
        }
        r
    }

    /// Destroys the deferred access behind `deferred`. `false`, and no
    /// change, where the handle does not stand for deferred access, and
    /// where a fetch made it: that one lives until the fetch is released.
    pub fn deferred_world_drop(&mut self, deferred: Handle<deferred_world>) -> (ok: bool)
        requires
            old(self).wf(),
        ensures
            final(self).wf(),
            ok == old(self)@.param_is_free(
                deferred.cast_spec::<dyn_system_param>(),
                ParamKind::DeferredWorld,
            ),
            final(self)@ == (if ok {
                SystemTablesView {
                    params: old(self)@.params.remove(deferred.cast_spec::<dyn_system_param>()),
                    ..old(self)@
                }
            } else {
                old(self)@
            }),
    {
        self.drop_free(deferred.cast::<dyn_system_param>(), ParamKind::DeferredWorld)
    }
}

/// One call that the host owes a guest function: the function and its
/// context, and the handles of the parameters to hand it.
pub struct SystemCall {
    pub callback: Callback,
    pub params: Vec<Handle<dyn_system_param>>,
}

/// A copy of the handles.
fn copy_handles(handles: &Vec<Handle<dyn_system_param>>) -> (out: Vec<Handle<dyn_system_param>>)
    ensures
        out@ == handles@,
{
    let mut out: Vec<Handle<dyn_system_param>> = Vec::new();
    let mut i: usize = 0;
    while i < handles.len()
        invariant
            i <= handles.len(),
            out@ == handles@.take(i as int),
        decreases handles.len() - i,
    {
        out.push(handles[i]);
        assert(handles@.take(i + 1) =~= handles@.take(i as int).push(handles@[i as int]));
        i += 1;
    }
    assert(handles@.take(handles.len() as int) =~= handles@);
    out
}

} // verus!
