//! Queries: which components a caller asks for, which entities answer, and
//! what the caller may touch on each of them.
use crate::component::ComponentId;
use crate::entity::Entity;
use crate::world::{World, WorldView};
use vstd::prelude::*;

pub mod builder;
pub mod filter;
pub mod iter;
pub mod state;

pub use builder::QueryBuilder;
pub use filter::{QueryFilter, With, Without};
pub use iter::{FilteredEntityMut, QueryIter};
pub use state::QueryState;

verus! {

/// What a query asks of one component.
#[derive(Clone, Copy, Debug, PartialEq, Eq, Structural)]
pub enum Access {
    /// The component must be present, and is read.
    Read,
    /// The component must be present, and is read and written.
    Write,
    /// The component must be present, and is not touched.
    With,
    /// The component must be absent.
    Without,
}

/// One thing a query asks: a component and what is asked of it.
#[derive(Clone, Copy, Debug, PartialEq, Eq, Structural)]
pub struct AccessTerm {
    pub id: ComponentId,
    pub access: Access,
}

/// Why a query could not be built.
#[derive(Clone, Copy, Debug, PartialEq, Eq, Structural)]
pub enum QueryError {
    /// A term names an id that is not registered as a component.
    UnknownComponent,
    /// A component is asked to be present and absent at once.
    ConflictingAccess,
}

/// Whether the terms ask `access` of component `id`.
pub open spec fn tagged(terms: Seq<AccessTerm>, id: ComponentId, access: Access) -> bool {
    terms.contains(AccessTerm { id, access })
}

/// Whether the terms ask for component `id` to be present.
pub open spec fn asks_present(terms: Seq<AccessTerm>, id: ComponentId) -> bool {
    tagged(terms, id, Access::Read) || tagged(terms, id, Access::Write) || tagged(
        terms,
        id,
        Access::With,
    )
}

/// Whether the terms ask for component `id` to be absent.
pub open spec fn asks_absent(terms: Seq<AccessTerm>, id: ComponentId) -> bool {
    tagged(terms, id, Access::Without)
}

/// Whether a view made from the terms may read component `id`.
pub open spec fn can_read(terms: Seq<AccessTerm>, id: ComponentId) -> bool {
    tagged(terms, id, Access::Read) || tagged(terms, id, Access::Write)
}

/// Whether a view made from the terms may write component `id`.
pub open spec fn can_write(terms: Seq<AccessTerm>, id: ComponentId) -> bool {
    tagged(terms, id, Access::Write)
}

/// Whether no component is asked to be present and absent at once.
pub open spec fn consistent(terms: Seq<AccessTerm>) -> bool {
    forall|id: ComponentId| !(asks_present(terms, id) && asks_absent(terms, id))
}

/// Whether every term names a component registered in `world`.
pub open spec fn known(terms: Seq<AccessTerm>, world: WorldView) -> bool {
    forall|i: int| 0 <= i < terms.len() ==> world.is_component(#[trigger] terms[i].id)
}

/// What building a query from the terms answers.
pub open spec fn check_terms(terms: Seq<AccessTerm>, world: WorldView) -> Result<(), QueryError> {
    if !known(terms, world) {
        Err(QueryError::UnknownComponent)
    } else if !consistent(terms) {
        Err(QueryError::ConflictingAccess)
    } else {
        Ok(())
    }
}

/// Whether `entity` satisfies one term.
pub open spec fn satisfies(world: WorldView, entity: Entity, term: AccessTerm) -> bool {
    if term.access == Access::Without {
        !world.has(entity, term.id)
    } else {
        world.has(entity, term.id)
    }
}

/// Whether `entity` answers the query: it lives, carries every component
/// asked to be present and none asked to be absent.
pub open spec fn matches(terms: Seq<AccessTerm>, world: WorldView, entity: Entity) -> bool {
    &&& world.contains(entity)
    &&& forall|i: int| 0 <= i < terms.len() ==> satisfies(world, entity, #[trigger] terms[i])
}

/// The entities among the first `bound` rows that answer the query, in the
/// order of their rows.
pub open spec fn matching_below(terms: Seq<AccessTerm>, world: WorldView, bound: nat) -> Seq<Entity>
    decreases bound,
{
    if bound == 0 {
        seq![]
    } else {
        let entity = Entity { bits: (bound - 1) as u64 };
        let rest = matching_below(terms, world, (bound - 1) as nat);
        if matches(terms, world, entity) {
            rest.push(entity)
        } else {
            rest
        }
    }
}

/// The entities that answer the query, in the order of their rows.
pub open spec fn matching(terms: Seq<AccessTerm>, world: WorldView) -> Seq<Entity> {
    matching_below(terms, world, world.rows.len())
}

/// Whether `a` writes a component that `b` reads or writes.
pub open spec fn writes_into(a: Seq<AccessTerm>, b: Seq<AccessTerm>) -> bool {
    exists|id: ComponentId| #[trigger] can_write(a, id) && can_read(b, id)
}

/// Whether `b` asks a component to be absent that `a` asks to be present,
/// so that no entity answers both.
pub open spec fn kept_apart(a: Seq<AccessTerm>, b: Seq<AccessTerm>) -> bool {
    exists|id: ComponentId| #[trigger] asks_present(a, id) && asks_absent(b, id)
}

/// Whether two queries may touch the same component of the same entity,
/// one of them writing: one writes what the other reaches, and nothing
/// either asks for keeps their entities apart.
pub open spec fn conflicts(a: Seq<AccessTerm>, b: Seq<AccessTerm>) -> bool {
    &&& writes_into(a, b) || writes_into(b, a)
    &&& !(kept_apart(a, b) || kept_apart(b, a))
}

/// What is in `matching_below`: the entities below the bound that answer
/// the query, each once, by rising bits.
pub proof fn lemma_matching_below(terms: Seq<AccessTerm>, world: WorldView, bound: nat)
    requires
        bound <= world.rows.len(),
        world.rows.len() <= u64::MAX,
    ensures
        forall|e: Entity|
            #[trigger] matching_below(terms, world, bound).contains(e) <==> (e.bits < bound
                && matches(terms, world, e)),
        forall|i: int, j: int|
            0 <= i < j < matching_below(terms, world, bound).len() ==> (#[trigger] matching_below(
                terms,
                world,
                bound,
            )[i]).bits < (#[trigger] matching_below(terms, world, bound)[j]).bits,
        matching_below(terms, world, bound).len() <= bound,
    decreases bound,
{
    let out = matching_below(terms, world, bound);
    if bound > 0 {
        let entity = Entity { bits: (bound - 1) as u64 };
        let rest = matching_below(terms, world, (bound - 1) as nat);
        lemma_matching_below(terms, world, (bound - 1) as nat);
        assert forall|e: Entity| #[trigger] out.contains(e) <==> (e.bits < bound && matches(
            terms,
            world,
            e,
        )) by {
            if out.contains(e) {
                let k = choose|k: int| 0 <= k < out.len() && out[k] == e;
                if k < rest.len() {
                    assert(rest[k] == e);
                    assert(rest.contains(e));
                }
            }
            if e.bits < bound && matches(terms, world, e) {
                if e.bits == bound - 1 {
                    assert(e == entity);
                    assert(out[rest.len() as int] == e);
                } else {
                    assert(rest.contains(e));
                    let k = choose|k: int| 0 <= k < rest.len() && rest[k] == e;
                    assert(out[k] == e);
                }
            }
        }
        assert forall|i: int, j: int| 0 <= i < j < out.len() implies (#[trigger] out[i]).bits < (
        #[trigger] out[j]).bits by {
            if j < rest.len() {
                assert(out[i] == rest[i]);
                assert(out[j] == rest[j]);
            } else {
                assert(out[i] == rest[i]);
                assert(rest.contains(rest[i]));
            }
        }
    }
}

/// An iteration reaches every entity that answers the query, each of them
/// once, and no other entity.
pub proof fn law_every_match_once(terms: Seq<AccessTerm>, world: WorldView)
    requires
        world.rows.len() <= u64::MAX,
    ensures
        forall|e: Entity| #[trigger] matching(terms, world).contains(e) <==> matches(terms, world, e),
        matching(terms, world).no_duplicates(),
{
    lemma_matching_below(terms, world, world.rows.len());
    let out = matching(terms, world);
    assert forall|i: int, j: int| 0 <= i < out.len() && 0 <= j < out.len() && i != j implies out[i]
        != out[j] by {
        if i < j {
            assert(out[i].bits < out[j].bits);
        } else {
            assert(out[j].bits < out[i].bits);
        }
    }
}

/// A query that reads `c1` and writes `c2`, over a world in which one
/// entity answers it, reaches that entity once and nothing else. The view
/// of the entity can read `c1`, can write `c2`, and can neither read nor
/// write any other component, whether the entity carries it or not.
pub proof fn law_one_match_one_view(
    terms: Seq<AccessTerm>,
    world: WorldView,
    c1: ComponentId,
    c2: ComponentId,
    entity: Entity,
)
    requires
        world.rows.len() <= u64::MAX,
        forall|term: AccessTerm|
            terms.contains(term) <==> (term == (AccessTerm { id: c1, access: Access::Read }) || term
                == (AccessTerm { id: c2, access: Access::Write })),
        forall|e: Entity| matches(terms, world, e) <==> e == entity,
    ensures
        matching(terms, world) == seq![entity],
        can_read(terms, c1),
        can_write(terms, c2),
        world.has(entity, c1),
        world.has(entity, c2),
        forall|other: ComponentId|
            other != c1 && other != c2 ==> !can_read(terms, other) && !can_write(terms, other),
{
    law_every_match_once(terms, world);
    lemma_matching_below(terms, world, world.rows.len());
    let out = matching(terms, world);
    assert(matches(terms, world, entity));
    assert(out.contains(entity));
    if out.len() >= 2 {
        assert(out.contains(out[0]));
        assert(out.contains(out[1]));
        assert(out[0].bits < out[1].bits);
    }
    assert(out[0] == entity) by {
        assert(out.contains(out[0]));
    }
    assert(out =~= seq![entity]);
    let read = AccessTerm { id: c1, access: Access::Read };
    let write = AccessTerm { id: c2, access: Access::Write };
    assert(terms.contains(read));
    assert(terms.contains(write));
    let i = choose|i: int| 0 <= i < terms.len() && terms[i] == read;
    assert(satisfies(world, entity, terms[i]));
    let j = choose|j: int| 0 <= j < terms.len() && terms[j] == write;
    assert(satisfies(world, entity, terms[j]));
}

/// Bytes stored as a component of a freshly spawned entity come back from
/// any query that reads the component and that the entity answers: the
/// iteration reaches the entity, its view may read the component, and the
/// bytes it carries are the stored bytes, not one bit changed.
pub proof fn law_stored_bytes_are_read_back(
    world: WorldView,
    terms: Seq<AccessTerm>,
    id: ComponentId,
    bytes: Seq<u8>,
)
    requires
        world.wf(),
        world.rows.len() < u64::MAX,
        world.is_component(id),
        bytes.len() == world.types[id.index as int].layout.size,
        can_read(terms, id),
        matches(terms, world.spawn_empty().write(world.next_entity(), id, bytes), world.next_entity()),
    ensures
        ({
            let entity = world.next_entity();
            let after = world.spawn_empty().write(entity, id, bytes);
            &&& after.wf()
            &&& matching(terms, after).contains(entity)
            &&& after.has(entity, id)
            &&& after.component(entity, id) == bytes
        }),
{
    let entity = world.next_entity();
    let after = world.spawn_empty().write(entity, id, bytes);
    crate::world::law_spawn_then_read(world, id, bytes);
    law_every_match_once(terms, after);
}

/// A copy of the terms.
pub fn copy_terms(terms: &Vec<AccessTerm>) -> (out: Vec<AccessTerm>)
    ensures
        out@ == terms@,
{
    let mut out: Vec<AccessTerm> = Vec::new();
    let mut i: usize = 0;
    while i < terms.len()
        invariant
            i <= terms.len(),
            out@ == terms@.take(i as int),
        decreases terms.len() - i,
    {
        out.push(terms[i]);
        assert(terms@.take(i + 1) =~= terms@.take(i as int).push(terms@[i as int]));
        i += 1;
    }
    assert(terms@.take(terms.len() as int) =~= terms@);
    out
}

fn same_access(a: Access, b: Access) -> (r: bool)
    ensures
        r == (a == b),
{
    match (a, b) {
        (Access::Read, Access::Read) => true,
        (Access::Write, Access::Write) => true,
        (Access::With, Access::With) => true,
        (Access::Without, Access::Without) => true,
        _ => false,
    }
}

/// Decides `tagged`.
pub fn is_tagged(terms: &Vec<AccessTerm>, id: ComponentId, access: Access) -> (r: bool)
    ensures
        r == tagged(terms@, id, access),
{
    let mut i: usize = 0;
    while i < terms.len()
        invariant
            i <= terms.len(),
            forall|j: int| 0 <= j < i ==> terms@[j] != (AccessTerm { id, access }),
        decreases terms.len() - i,
    {
        if terms[i].id.index == id.index && same_access(terms[i].access, access) {
            assert(terms@[i as int] == (AccessTerm { id, access }));
            return true;
        }
        i += 1;
    }
    false
}

/// Decides `asks_present`.
pub fn is_asked_present(terms: &Vec<AccessTerm>, id: ComponentId) -> (r: bool)
    ensures
        r == asks_present(terms@, id),
{
    is_tagged(terms, id, Access::Read) || is_tagged(terms, id, Access::Write) || is_tagged(
        terms,
        id,
        Access::With,
    )
}

/// Decides `can_read`.
pub fn is_readable(terms: &Vec<AccessTerm>, id: ComponentId) -> (r: bool)
    ensures
        r == can_read(terms@, id),
{
    is_tagged(terms, id, Access::Read) || is_tagged(terms, id, Access::Write)
}

/// Decides `can_write`.
pub fn is_writable(terms: &Vec<AccessTerm>, id: ComponentId) -> (r: bool)
    ensures
        r == can_write(terms@, id),
{
    is_tagged(terms, id, Access::Write)
}

/// Decides `consistent`.
pub fn is_consistent(terms: &Vec<AccessTerm>) -> (r: bool)
    ensures
        r == consistent(terms@),
{
    let mut i: usize = 0;
    while i < terms.len()
        invariant
            i <= terms.len(),
            forall|j: int|
                0 <= j < i && terms@[j].access == Access::Without ==> !asks_present(
                    terms@,
                    #[trigger] terms@[j].id,
                ),
        decreases terms.len() - i,
    {
        if same_access(terms[i].access, Access::Without) && is_asked_present(terms, terms[i].id) {
            assert(terms@[i as int] == (AccessTerm { id: terms@[i as int].id, access: Access::Without }));
            assert(asks_absent(terms@, terms@[i as int].id));
            return false;
        }
        i += 1;
    }
    assert forall|id: ComponentId| !(asks_present(terms@, id) && asks_absent(terms@, id)) by {
        if asks_absent(terms@, id) {
            let j = choose|j: int|
                0 <= j < terms@.len() && terms@[j] == (AccessTerm { id, access: Access::Without });
            assert(terms@[j].id == id);
        }
    }
    true
}

/// Decides `known`.
pub fn is_known(terms: &Vec<AccessTerm>, world: &World) -> (r: bool)
    ensures
        r == known(terms@, world@),
{
    let mut i: usize = 0;
    while i < terms.len()
        invariant
            i <= terms.len(),
            forall|j: int| 0 <= j < i ==> world@.is_component(#[trigger] terms@[j].id),
        decreases terms.len() - i,
    {
        if !world.is_component(terms[i].id) {
            return false;
        }
        i += 1;
    }
    true
}

/// Decides `matches`.
pub fn is_match(terms: &Vec<AccessTerm>, world: &World, entity: Entity) -> (r: bool)
    ensures
        r == matches(terms@, world@, entity),
{
    if !world.contains(entity) {
        return false;
    }
    let mut i: usize = 0;
    while i < terms.len()
        invariant
            i <= terms.len(),
            forall|j: int| 0 <= j < i ==> satisfies(world@, entity, #[trigger] terms@[j]),
        decreases terms.len() - i,
    {
        let present = world.has(entity, terms[i].id);
        let wanted = !same_access(terms[i].access, Access::Without);
        if present != wanted {
            return false;
        }
        i += 1;
    }
    true
}

/// The entities of `world` that answer the query, in the order of their
/// rows.
pub fn find_matching(terms: &Vec<AccessTerm>, world: &World) -> (out: Vec<Entity>)
    ensures
        out@ == matching(terms@, world@),
{
    let mut out: Vec<Entity> = Vec::new();
    let count = world.entity_count();
    let mut i: usize = 0;
    while i < count
        invariant
            i <= count,
            count == world@.rows.len(),
            out@ == matching_below(terms@, world@, i as nat),
        decreases count - i,
    {
        let entity = Entity::from_bits(i as u64);
        if is_match(terms, world, entity) {
            out.push(entity);
        }
        i += 1;
    }
    out
}

/// Decides `conflicts`.
pub fn is_conflicting(a: &Vec<AccessTerm>, b: &Vec<AccessTerm>) -> (r: bool)
    ensures
        r == conflicts(a@, b@),
{
    let overlap = is_writing_into(a, b) || is_writing_into(b, a);
    let apart = is_kept_apart(a, b) || is_kept_apart(b, a);
    overlap && !apart
}

/// Decides `writes_into`.
fn is_writing_into(a: &Vec<AccessTerm>, b: &Vec<AccessTerm>) -> (r: bool)
    ensures
        r == writes_into(a@, b@),
{
    let mut i: usize = 0;
    while i < a.len()
        invariant
            i <= a.len(),
            forall|j: int|
                0 <= j < i && a@[j].access == Access::Write ==> !can_read(b@, #[trigger] a@[j].id),
        decreases a.len() - i,
    {
        if same_access(a[i].access, Access::Write) && is_readable(b, a[i].id) {
            assert(a@[i as int] == (AccessTerm { id: a@[i as int].id, access: Access::Write }));
            assert(can_write(a@, a@[i as int].id));
            return true;
        }
        i += 1;
    }
    assert forall|id: ComponentId| !(#[trigger] can_write(a@, id) && can_read(b@, id)) by {
        if can_write(a@, id) {
            let j = choose|j: int|
                0 <= j < a@.len() && a@[j] == (AccessTerm { id, access: Access::Write });
            assert(a@[j].id == id);
        }
    }
    false
}

/// Decides `kept_apart`.
fn is_kept_apart(a: &Vec<AccessTerm>, b: &Vec<AccessTerm>) -> (r: bool)
    ensures
        r == kept_apart(a@, b@),
{
    let mut i: usize = 0;
    while i < b.len()
        invariant
            i <= b.len(),
            forall|j: int|
                0 <= j < i && b@[j].access == Access::Without ==> !asks_present(
                    a@,
                    #[trigger] b@[j].id,
                ),
        decreases b.len() - i,
    {
        if same_access(b[i].access, Access::Without) && is_asked_present(a, b[i].id) {
            assert(b@[i as int] == (AccessTerm { id: b@[i as int].id, access: Access::Without }));
            assert(asks_absent(b@, b@[i as int].id));
            return true;
        }
        i += 1;
    }
    assert forall|id: ComponentId| !(#[trigger] asks_present(a@, id) && asks_absent(b@, id)) by {
        if asks_absent(b@, id) {
            let j = choose|j: int|
                0 <= j < b@.len() && b@[j] == (AccessTerm { id, access: Access::Without });
            assert(b@[j].id == id);
        }
    }
    false
}

/// A query fetched as a parameter of a system: it reaches the entities that
/// answer the terms it was declared with, for as long as the system runs.
pub struct Query {
    terms: Vec<AccessTerm>,
}

impl Query {
    /// The terms the query was declared with.
    pub closed spec fn view(&self) -> Seq<AccessTerm> {
        self.terms@
    }

    /// A query over the given terms.
    pub fn new(terms: Vec<AccessTerm>) -> (query: Self)
        ensures
            query@ == terms@,
    {
        Query { terms }
    }

    /// A copy of the terms the query was declared with.
    pub fn terms(&self) -> (terms: Vec<AccessTerm>)
        ensures
            terms@ == self@,
    {
        copy_terms(&self.terms)
    }

    /// Starts an iteration over the entities of `world` that answer the
    /// query now.
    pub fn iter_mut(&mut self, world: &World) -> (iter: QueryIter)
        ensures
            final(self)@ == old(self)@,
            iter.terms() == old(self)@,
            iter.remaining() == matching(old(self)@, world@),
            iter.position() == 0,
    {
        QueryIter::new(find_matching(&self.terms, world), copy_terms(&self.terms))
    }
}

} // verus!
