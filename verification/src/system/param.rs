//! The kinds of parameter a system can ask for, and the type-erased form
//! in which the host hands each one over.
use crate::component::ComponentId;
use crate::entity::Entity;
use crate::query::state::QueryState;
use crate::query::{AccessTerm, Query};
use crate::system::commands::{Callback, Commands};
use crate::world::World;
use vstd::prelude::*;

verus! {

/// The kinds of parameter.
#[derive(Clone, Copy, Debug, PartialEq, Eq, Structural)]
pub enum ParamKind {
    Query,
    Commands,
    DeferredWorld,
}

impl ParamKind {
    /// Whether this kind is `other`.
    pub fn same_as(self, other: ParamKind) -> (r: bool)
        ensures
            r == (self == other),
    {
        match (self, other) {
            (ParamKind::Query, ParamKind::Query) => true,
            (ParamKind::Commands, ParamKind::Commands) => true,
            (ParamKind::DeferredWorld, ParamKind::DeferredWorld) => true,
            _ => false,
        }
    }
}

/// What a system declares for one parameter.
pub enum ParamDescriptor {
    /// A query over the given terms.
    Query(Vec<AccessTerm>),
    /// A queue for deferred commands.
    Commands,
    /// Access to the world without changes to its structure.
    DeferredWorld,
}

/// A declared parameter as mathematics.
pub enum ParamView {
    Query(Seq<AccessTerm>),
    Commands,
    DeferredWorld,
}

impl ParamView {
    /// The kind of the parameter.
    pub open spec fn kind(self) -> ParamKind {
        match self {
            ParamView::Query(_) => ParamKind::Query,
            ParamView::Commands => ParamKind::Commands,
            ParamView::DeferredWorld => ParamKind::DeferredWorld,
        }
    }

    /// The parameter as it is handed out at the start of a run: a query
    /// over the declared terms, an empty command queue, or deferred access.
    pub open spec fn fresh(self) -> DynParamView {
        match self {
            ParamView::Query(terms) => DynParamView::Query(terms),
            ParamView::Commands => DynParamView::Commands(Seq::empty()),
            ParamView::DeferredWorld => DynParamView::DeferredWorld,
        }
    }
}

impl ParamDescriptor {
    /// The declared parameter as mathematics.
    pub open spec fn view(&self) -> ParamView {
        match self {
            ParamDescriptor::Query(terms) => ParamView::Query(terms@),
            ParamDescriptor::Commands => ParamView::Commands,
            ParamDescriptor::DeferredWorld => ParamView::DeferredWorld,
        }
    }

    /// The kind of the parameter.
    pub fn kind(&self) -> (kind: ParamKind)
        ensures
            kind == self@.kind(),
    {
        match self {
            ParamDescriptor::Query(_) => ParamKind::Query,
            ParamDescriptor::Commands => ParamKind::Commands,
            ParamDescriptor::DeferredWorld => ParamKind::DeferredWorld,
        }
    }
}

/// Access to the world for code that runs while the world's structure must
/// not change: values can be read and written in place, entities and
/// components can neither come nor go.
pub struct DeferredWorld;

impl DeferredWorld {
    /// Deferred access, freshly made.
    pub fn new() -> (deferred: Self)
        ensures
            deferred == DeferredWorld,
    {
        DeferredWorld
    }

    /// A query over the entities that answer `state`.
    pub fn query(&mut self, state: &QueryState) -> (query: Query)
        ensures
            query@ == state@,
    {
        Query::new(state.terms())
    }

    /// The bytes of component `component_id` on `entity`, in place and open
    /// to writes; `None` where the entity does not live or does not carry
    /// the component.
    pub fn get_mut<'a>(&mut self, world: &'a mut World, entity: Entity, component_id: usize) -> (r:
        Option<&'a mut [u8]>)
        requires
            old(world).wf(),
        ensures
            r is Some <==> old(world)@.has(entity, ComponentId { index: component_id }),
            r is None ==> final(world)@ == old(world)@,
            r matches Some(bytes) ==> {
                &&& bytes@ == old(world)@.component(entity, ComponentId { index: component_id })
                &&& final(world)@ =~~= old(world)@.write(
                    entity,
                    ComponentId { index: component_id },
                    final(bytes)@,
                )
                &&& final(bytes)@.len() == bytes@.len() ==> final(world).wf()
            },
    {
        world.get_mut(entity, ComponentId::new(component_id))
    }

    /// The bytes of resource `component_id`, in place and open to writes;
    /// `None` where the world holds no such resource.
    pub fn get_resource_mut<'a>(&mut self, world: &'a mut World, component_id: usize) -> (r: Option<
        &'a mut [u8],
    >)
        requires
            old(world).wf(),
        ensures
            r is Some <==> old(world)@.resources.dom().contains(ComponentId { index: component_id }),
            r is None ==> final(world)@ == old(world)@,
            r matches Some(bytes) ==> {
                &&& bytes@ == old(world)@.resources[ComponentId { index: component_id }]
                &&& final(world)@ =~~= old(world)@.write_resource(
                    ComponentId { index: component_id },
                    final(bytes)@,
                )
                &&& final(bytes)@.len() == bytes@.len() ==> final(world).wf()
            },
    {
        world.get_resource_mut_by_id(ComponentId::new(component_id))
    }
}

/// One parameter as the host hands it over: its kind is known only by the
/// tag, and the guest gets at the thing itself by a downcast to the kind it
/// declared at that position.
pub enum DynParam {
    Query(Query),
    Commands(Commands),
    DeferredWorld(DeferredWorld),
}

/// A handed-over parameter as mathematics.
pub enum DynParamView {
    Query(Seq<AccessTerm>),
    Commands(Seq<Callback>),
    DeferredWorld,
}

impl DynParamView {
    /// The kind of the parameter.
    pub open spec fn kind(self) -> ParamKind {
        match self {
            DynParamView::Query(_) => ParamKind::Query,
            DynParamView::Commands(_) => ParamKind::Commands,
            DynParamView::DeferredWorld => ParamKind::DeferredWorld,
        }
    }

    /// The commands queued in the parameter; none where it is no command
    /// queue.
    pub open spec fn queued(self) -> Seq<Callback> {
        match self {
            DynParamView::Commands(queue) => queue,
            _ => Seq::empty(),
        }
    }
}

impl DynParam {
    /// The parameter as mathematics.
    pub open spec fn view(&self) -> DynParamView {
        match self {
            DynParam::Query(query) => DynParamView::Query(query@),
            DynParam::Commands(commands) => DynParamView::Commands(commands@),
            DynParam::DeferredWorld(_) => DynParamView::DeferredWorld,
        }
    }

    /// The kind of the parameter.
    pub fn kind(&self) -> (kind: ParamKind)
        ensures
            kind == self@.kind(),
    {
        match self {
            DynParam::Query(_) => ParamKind::Query,
            DynParam::Commands(_) => ParamKind::Commands,
            DynParam::DeferredWorld(_) => ParamKind::DeferredWorld,
        }
    }

    /// The query behind the parameter; `None` where it is of another kind.
    pub fn downcast_query(self) -> (r: Option<Query>)
        ensures
            r is Some <==> self@.kind() == ParamKind::Query,
            r matches Some(query) ==> self@ == DynParamView::Query(query@),
    {
        match self {
            DynParam::Query(query) => Some(query),
            _ => None,
        }
    }

    /// The command queue behind the parameter; `None` where it is of
    /// another kind.
    pub fn downcast_commands(self) -> (r: Option<Commands>)
        ensures
            r is Some <==> self@.kind() == ParamKind::Commands,
            r matches Some(commands) ==> self@ == DynParamView::Commands(commands@),
    {
        match self {
            DynParam::Commands(commands) => Some(commands),
            _ => None,
        }
    }

    /// The deferred access behind the parameter; `None` where it is of
    /// another kind.
    pub fn downcast_deferred_world(self) -> (r: Option<DeferredWorld>)
        ensures
            r is Some <==> self@.kind() == ParamKind::DeferredWorld,
    {
        match self {
            DynParam::DeferredWorld(deferred) => Some(deferred),
            _ => None,
        }
    }
}

/// The parameters as mathematics, one by one.
pub open spec fn dyn_views(params: Seq<DynParam>) -> Seq<DynParamView> {
    Seq::new(params.len(), |i: int| params[i]@)
}

/// The declared parameters as mathematics, one by one.
pub open spec fn param_views(params: Seq<ParamDescriptor>) -> Seq<ParamView> {
    Seq::new(params.len(), |i: int| params[i]@)
}

/// The parameters as they are handed out at the start of a run.
pub open spec fn fresh_params(params: Seq<ParamView>) -> Seq<DynParamView> {
    Seq::new(params.len(), |i: int| params[i].fresh())
}

/// Whether the parameters handed back are, kind by kind, those declared.
pub open spec fn same_kinds(declared: Seq<ParamView>, params: Seq<DynParamView>) -> bool {
    &&& declared.len() == params.len()
    &&& forall|i: int| 0 <= i < declared.len() ==> declared[i].kind() == (#[trigger] params[i]).kind()
}

/// The commands queued in the first `bound` parameters, in the order of the
/// parameters and, within one queue, in the order of the pushes.
pub open spec fn queued_below(params: Seq<DynParamView>, bound: nat) -> Seq<Callback>
    decreases bound,
{
    if bound == 0 {
        Seq::empty()
    } else {
        queued_below(params, (bound - 1) as nat) + params[bound - 1].queued()
    }
}

/// The commands queued in the parameters.
pub open spec fn queued(params: Seq<DynParamView>) -> Seq<Callback> {
    queued_below(params, params.len())
}

/// The commands of one queue leave a run together and in the order in
/// which they were pushed: they stand in the run's commands as one
/// unbroken stretch, behind the commands of the parameters before and in
/// front of those of the parameters after.
pub proof fn law_commands_keep_their_order(params: Seq<DynParamView>, k: int)
    requires
        0 <= k < params.len(),
    ensures
        ({
            let start = queued_below(params, k as nat).len() as int;
            let queue = params[k].queued();
            &&& start + queue.len() <= queued(params).len()
            &&& queued(params).subrange(start, start + queue.len()) == queue
        }),
{
    lemma_queued_prefix(params, (k + 1) as nat, params.len());
    let start = queued_below(params, k as nat).len() as int;
    let queue = params[k].queued();
    let upto = queued_below(params, (k + 1) as nat);
    assert(upto == queued_below(params, k as nat) + queue);
    assert(upto.len() == start + queue.len());
    assert forall|i: int| 0 <= i < queue.len() implies queued(params)[start + i] == queue[i] by {
        assert(queued(params).subrange(0, upto.len() as int)[start + i] == upto[start + i]);
    }
    assert(queued(params).subrange(start, start + queue.len()) =~= queue);
}

/// The commands of the first `low` parameters open the commands of the
/// first `high`.
proof fn lemma_queued_prefix(params: Seq<DynParamView>, low: nat, high: nat)
    requires
        low <= high <= params.len(),
    ensures
        queued_below(params, low).len() <= queued_below(params, high).len(),
        queued_below(params, high).subrange(0, queued_below(params, low).len() as int)
            == queued_below(params, low),
    decreases high - low,
{
    if low < high {
        lemma_queued_prefix(params, low, (high - 1) as nat);
        let shorter = queued_below(params, (high - 1) as nat);
        let longer = queued_below(params, high);
        assert(longer == shorter + params[high - 1].queued());
        assert(longer.subrange(0, queued_below(params, low).len() as int) =~= shorter.subrange(
            0,
            queued_below(params, low).len() as int,
        ));
    } else {
        assert(queued_below(params, high).subrange(0, queued_below(params, low).len() as int)
            =~= queued_below(params, low));
    }
}

/// Of two commands pushed through one queue, the one pushed first runs
/// first: it stands before the other in the run's commands.
pub proof fn law_first_pushed_runs_first(
    params: Seq<DynParamView>,
    k: int,
    before: Seq<Callback>,
    a: Callback,
    b: Callback,
)
    requires
        0 <= k < params.len(),
        params[k] == DynParamView::Commands(before.push(a).push(b)),
    ensures
        ({
            let at = (queued_below(params, k as nat).len() + before.len()) as int;
            &&& at + 1 < queued(params).len()
            &&& queued(params)[at] == a
            &&& queued(params)[at + 1] == b
        }),
{
    law_commands_keep_their_order(params, k);
    let start = queued_below(params, k as nat).len() as int;
    let queue = params[k].queued();
    assert(queue == before.push(a).push(b));
    assert(queued(params).subrange(start, start + queue.len())[before.len() as int] == a);
    assert(queued(params).subrange(start, start + queue.len())[before.len() as int + 1] == b);
}

} // verus!
