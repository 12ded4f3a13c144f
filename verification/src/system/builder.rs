//! The builder that gathers the parameters of a system, and the cursor
//! with which the guest takes the handed-over parameters one by one.
use crate::query::builder::QueryBuilder;
use crate::query::{check_terms, conflicts, is_conflicting, is_consistent, is_known};
use crate::system::param::{param_views, ParamDescriptor, ParamView};
use crate::system::state::SystemState;
use crate::system::SystemError;
use crate::world::{World, WorldView};
use vstd::prelude::*;

verus! {

/// Whether every query among the parameters can be built in `world`.
pub open spec fn valid_queries(params: Seq<ParamView>, world: WorldView) -> bool {
    forall|i: int|
        0 <= i < params.len() ==> (#[trigger] params[i] matches ParamView::Query(terms)
            ==> check_terms(terms, world) is Ok)
}

/// Whether no two queries among the parameters may touch the same component
/// of the same entity, one of them writing.
pub open spec fn conflict_free(params: Seq<ParamView>) -> bool {
    forall|i: int, j: int|
        0 <= i < j < params.len() ==> (#[trigger] params[i] matches ParamView::Query(a) ==> (
        #[trigger] params[j] matches ParamView::Query(b) ==> !conflicts(a, b)))
}

/// What building a system state from the parameters answers.
pub open spec fn check_params(params: Seq<ParamView>, world: WorldView) -> Result<
    (),
    SystemError,
> {
    if !valid_queries(params, world) {
        Err(SystemError::InvalidQuery)
    } else if !conflict_free(params) {
        Err(SystemError::ConflictingAccess)
    } else {
        Ok(())
    }
}

/// Gathers the parameters of a system, in the order in which the system
/// declares them.
pub struct ParamBuilder {
    params: Vec<ParamDescriptor>,
}

/// Decides `valid_queries`.
fn are_valid_queries(params: &Vec<ParamDescriptor>, world: &World) -> (r: bool)
    ensures
        r == valid_queries(param_views(params@), world@),
{
    let mut i: usize = 0;
    while i < params.len()
        invariant
            i <= params.len(),
            forall|k: int|
                0 <= k < i ==> (#[trigger] param_views(params@)[k] matches ParamView::Query(terms)
                    ==> check_terms(terms, world@) is Ok),
        decreases params.len() - i,
    {
        match &params[i] {
            ParamDescriptor::Query(terms) => {
                if !is_known(terms, world) || !is_consistent(terms) {
                    assert(param_views(params@)[i as int] == ParamView::Query(terms@));
                    return false;
                }
            },
            _ => {},
        }
        i += 1;
    }
    true
}

/// Whether `world` knows every component that a query among the parameters
/// names.
pub(crate) fn queries_known(params: &Vec<ParamDescriptor>, world: &World) -> (r: bool)
    ensures
        r == valid_queries(param_views(params@), world@),
{
    are_valid_queries(params, world)
}

/// Whether the query at `j` conflicts with none of the queries before it.
fn no_conflict_before(params: &Vec<ParamDescriptor>, j: usize) -> (r: bool)
    requires
        j < params.len(),
    ensures
        r == forall|i: int|
            0 <= i < j ==> (#[trigger] param_views(params@)[i] matches ParamView::Query(a) ==> (
            param_views(params@)[j as int] matches ParamView::Query(b) ==> !conflicts(a, b))),
{
    match &params[j] {
        ParamDescriptor::Query(b) => {
            let mut i: usize = 0;
            while i < j
                invariant
                    i <= j,
                    j < params.len(),
                    params@[j as int] == ParamDescriptor::Query(*b),
                    forall|k: int|
                        0 <= k < i ==> (#[trigger] param_views(params@)[k] matches ParamView::Query(
                            a,
                        ) ==> !conflicts(a, b@)),
                decreases j - i,
            {
                match &params[i] {
                    ParamDescriptor::Query(a) => {
                        if is_conflicting(a, b) {
                            assert(param_views(params@)[i as int] == ParamView::Query(a@));
                            assert(param_views(params@)[j as int] == ParamView::Query(b@));
                            return false;
                        }
                    },
                    _ => {},
                }
                i += 1;
            }
            true
        },
        _ => true,
    }
}

/// Decides `conflict_free`.
fn is_conflict_free(params: &Vec<ParamDescriptor>) -> (r: bool)
    ensures
        r == conflict_free(param_views(params@)),
{
    let mut j: usize = 0;
    while j < params.len()
        invariant
            j <= params.len(),
            forall|i: int, k: int|
                0 <= i < k < j ==> (#[trigger] param_views(params@)[i] matches ParamView::Query(a)
                    ==> (#[trigger] param_views(params@)[k] matches ParamView::Query(b)
                    ==> !conflicts(a, b))),
        decreases params.len() - j,
    {
        if !no_conflict_before(params, j) {
            return false;
        }
        j += 1;
    }
    true
}

impl ParamBuilder {
    /// The parameters gathered so far, in the order of the calls.
    pub closed spec fn view(&self) -> Seq<ParamView> {
        param_views(self.params@)
    }

    /// A builder without parameters.
    pub fn new() -> (builder: Self)
        ensures
            builder@ == Seq::<ParamView>::empty(),
    {
        let builder = ParamBuilder { params: Vec::new() };
        assert(builder@ =~= Seq::<ParamView>::empty());
        builder
    }

    /// Adds a query parameter and takes the query builder over, terms and
    /// all. The terms are checked when the system state is built.
    pub fn add_query(&mut self, query: QueryBuilder)
        ensures
            final(self)@ == old(self)@.push(ParamView::Query(query@)),
    {
        self.params.push(ParamDescriptor::Query(query.into_terms()));
        assert(final(self)@ =~= old(self)@.push(ParamView::Query(query@)));
    }

    /// Adds a command queue as a parameter.
    pub fn add_commands(&mut self)
        ensures
            final(self)@ == old(self)@.push(ParamView::Commands),
    {
        self.params.push(ParamDescriptor::Commands);
        assert(final(self)@ =~= old(self)@.push(ParamView::Commands));
    }

    /// Adds deferred access to the world as a parameter.
    pub fn add_deferred_world(&mut self)
        ensures
            final(self)@ == old(self)@.push(ParamView::DeferredWorld),
    {
        self.params.push(ParamDescriptor::DeferredWorld);
        assert(final(self)@ =~= old(self)@.push(ParamView::DeferredWorld));
    }

    /// Turns the builder into a system state that can be fetched run after
    /// run. The build fails where a query among the parameters cannot be
    /// built in `world`, or where two of them conflict. Either way the
    /// builder is spent.
    pub fn build(self, world: &World) -> (r: Result<SystemState, SystemError>)
        ensures
            match r {
                Ok(state) => {
                    &&& check_params(self@, world@) is Ok
                    &&& state@.params == self@
                    &&& state@.pending == Seq::<crate::system::commands::Callback>::empty()
                    &&& !state@.fetched
                },
                Err(e) => check_params(self@, world@) == Err::<(), SystemError>(e),
            },
    {
        if !are_valid_queries(&self.params, world) {
            return Err(SystemError::InvalidQuery);
        }
        if !is_conflict_free(&self.params) {
            return Err(SystemError::ConflictingAccess);
        }
        Ok(SystemState::from_params(self.params))
    }
}

/// Walks over the parameters that a fetch handed out, in the order in which
/// the system declared them. The parameters are of type `T`: the objects
/// themselves on the host's side, their handles on the guest's.
pub struct ParamCursor<T> {
    data: Vec<T>,
    position: usize,
}

impl<T> ParamCursor<T> {
    /// The parameters not taken yet, next one first.
    pub closed spec fn remaining(&self) -> Seq<T> {
        self.data@
    }

    /// How many parameters were taken.
    pub closed spec fn taken(&self) -> nat {
        self.position as nat
    }

    /// The count of taken parameters can still grow by the number of those
    /// that remain.
    pub closed spec fn wf(&self) -> bool {
        self.position + self.data.len() <= usize::MAX
    }

    /// A cursor before the first of the parameters.
    pub fn new(data: Vec<T>) -> (cursor: Self)
        ensures
            cursor.wf(),
            cursor.remaining() == data@,
            cursor.taken() == 0,
    {
        ParamCursor { data, position: 0 }
    }

    /// Takes the next parameter; `None` when all were taken.
    pub fn next(&mut self) -> (r: Option<T>)
        requires
            old(self).wf(),
        ensures
            final(self).wf(),
            match r {
                Some(param) => {
                    &&& old(self).remaining().len() > 0
                    &&& param == old(self).remaining()[0]
                    &&& final(self).remaining() == old(self).remaining().skip(1)
                    &&& final(self).taken() == old(self).taken() + 1
                },
                None => {
                    &&& old(self).remaining().len() == 0
                    &&& final(self).remaining() == old(self).remaining()
                    &&& final(self).taken() == old(self).taken()
                },
            },
    {
        if self.data.len() > 0 {
            let param = self.data.remove(0);
            self.position += 1;
            assert(final(self).data@ =~= old(self).data@.skip(1));
            Some(param)
        } else {
            None
        }
    }

    /// How many parameters were taken.
    pub fn position(&self) -> (n: usize)
        ensures
            n == self.taken(),
    {
        self.position
    }
}

} // verus!
