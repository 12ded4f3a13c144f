//! A built query, ready to be iterated any number of times.
use crate::query::iter::QueryIter;
use crate::query::{
    conflicts,
    consistent,
    copy_terms,
    find_matching,
    is_conflicting,
    matching,
    AccessTerm,
};
use crate::world::World;
use vstd::prelude::*;

verus! {

/// A query whose terms were checked: no component is asked to be present
/// and absent at once.
pub struct QueryState {
    terms: Vec<AccessTerm>,
}

impl QueryState {
    /// The terms of the query.
    pub closed spec fn view(&self) -> Seq<AccessTerm> {
        self.terms@
    }

    pub(crate) fn from_terms(terms: Vec<AccessTerm>) -> (state: Self)
        ensures
            state@ == terms@,
    {
        QueryState { terms }
    }

    /// A copy of the terms of the query.
    pub fn terms(&self) -> (terms: Vec<AccessTerm>)
        ensures
            terms@ == self@,
    {
        copy_terms(&self.terms)
    }

    /// Whether this query and `other` may touch the same component of the
    /// same entity, one of them writing. Two such queries must not be live
    /// at once.
    pub fn conflicts_with(&self, other: &QueryState) -> (r: bool)
        ensures
            r == conflicts(self@, other@),
    {
        is_conflicting(&self.terms, &other.terms)
    }

    /// Starts an iteration over the entities of `world` that answer the
    /// query now: every one of them once, in the order of their rows.
    pub fn iter_mut(&mut self, world: &World) -> (iter: QueryIter)
        ensures
            final(self)@ == old(self)@,
            iter.terms() == old(self)@,
            iter.remaining() == matching(old(self)@, world@),
            iter.position() == 0,
    {
        QueryIter::new(find_matching(&self.terms, world), copy_terms(&self.terms))
    }
}

} // verus!
