//! Generation-checked handles and the table that mints them.
//!
//! A handle names one host-side object. It is valid from the moment `insert`
//! returns it until `remove` is called on it; after that the table still
//! remembers that it once existed, so a second `remove` or a late `get` is
//! told apart from a handle that was never issued.
use core::marker::PhantomData;
use vstd::prelude::*;

verus! {

/// Kind of a handle that stands for a world.
pub enum world {
    Opaque,
}

/// Kind of a handle that stands for a query builder.
pub enum query_builder {
    Opaque,
}

/// Kind of a handle that stands for a built query state.
pub enum query_state {
    Opaque,
}

/// Kind of a handle that stands for a query fetched as a system parameter.
pub enum query {
    Opaque,
}

/// Kind of a handle that stands for a running query iteration.
pub enum query_iter {
    Opaque,
}

/// Kind of a handle that stands for a per-entity filtered view.
pub enum filtered_entity_mut {
    Opaque,
}

/// Kind of a handle that stands for a parameter builder.
pub enum param_builder {
    Opaque,
}

/// Kind of a handle that stands for a system state.
pub enum system_state {
    Opaque,
}

/// Kind of a handle that stands for one type-erased system parameter.
pub enum dyn_system_param {
    Opaque,
}

/// Kind of a handle that stands for a runnable system.
pub enum system {
    Opaque,
}

/// Kind of a handle that stands for a queue of deferred commands.
pub enum commands {
    Opaque,
}

/// Kind of a handle that stands for deferred access to the world.
pub enum deferred_world {
    Opaque,
}

/// Why a handle was turned down.
#[derive(Clone, Copy, Debug, PartialEq, Eq, Structural)]
pub enum HandleError {
    /// The handle was valid once and has been destroyed since.
    Stale,
    /// The table never issued this handle.
    Unknown,
}

/// One past the largest slot index or generation that fits in half of a
/// 64-bit word.
pub const HALF_WORD: u64 = 0x1_0000_0000;

/// An opaque, single-owner reference to an object of kind `K`.
pub struct Handle<K> {
    slot: u32,
    generation: u32,
    kind: PhantomData<K>,
}

impl<K> Handle<K> {
    /// The index of the slot the handle points at.
    pub closed spec fn slot(self) -> nat {
        self.slot as nat
    }

    /// The generation of the slot at the time the handle was issued; zero for
    /// the null handle.
    pub closed spec fn generation(self) -> nat {
        self.generation as nat
    }

    /// The handle as one number, the form in which it crosses the boundary.
    pub open spec fn bits(self) -> nat {
        self.generation() * (HALF_WORD as nat) + self.slot()
    }

    /// Two handles with the same slot and generation are the same handle.
    pub proof fn lemma_eq(self, other: Self)
        requires
            self.slot() == other.slot(),
            self.generation() == other.generation(),
        ensures
            self == other,
    {
    }

    /// The handle that no table ever issues.
    pub fn null() -> (h: Self)
        ensures
            h.slot() == 0,
            h.generation() == 0,
    {
        Handle { slot: 0, generation: 0, kind: PhantomData }
    }

    /// Whether this is the null handle.
    pub fn is_null(&self) -> (b: bool)
        ensures
            b == (self.bits() == 0),
    {
        self.slot == 0 && self.generation == 0
    }

    /// Packs the handle into one 64-bit word: the generation in the high
    /// half, the slot in the low half.
    pub fn to_bits(&self) -> (bits: u64)
        ensures
            bits as nat == self.bits(),
    {
        (self.generation as u64) * HALF_WORD + (self.slot as u64)
    }

    /// The same slot and generation, read as a handle of another kind, as
    /// mathematics.
    pub closed spec fn cast_spec<K2>(self) -> Handle<K2> {
        Handle { slot: self.slot, generation: self.generation, kind: PhantomData }
    }

    /// The same slot and generation, read as a handle of another kind. The
    /// host uses this where one object is known under two kinds: a
    /// type-erased parameter and the thing it was downcast to.
    pub fn cast<K2>(&self) -> (h: Handle<K2>)
        ensures
            h == self.cast_spec::<K2>(),
            h.slot() == self.slot(),
            h.generation() == self.generation(),
            h.bits() == self.bits(),
            h.cast_spec::<K>() == *self,
    {
        Handle { slot: self.slot, generation: self.generation, kind: PhantomData }
    }

    /// Unpacks a handle from a 64-bit word.
    pub fn from_bits(bits: u64) -> (h: Self)
        ensures
            h.bits() == bits as nat,
            h.slot() == bits as nat % (HALF_WORD as nat),
            h.generation() == bits as nat / (HALF_WORD as nat),
    {
        Handle {
            slot: (bits % HALF_WORD) as u32,
            generation: (bits / HALF_WORD) as u32,
            kind: PhantomData,
        }
    }
}

impl<K> Clone for Handle<K> {
    fn clone(&self) -> (h: Self)
        ensures
            h == *self,
    {
        Handle { slot: self.slot, generation: self.generation, kind: PhantomData }
    }
}

impl<K> Copy for Handle<K> {

}

/// What a table knows, as mathematics: the objects behind the handles that
/// are valid now, and the handles that were valid once.
#[verifier::reject_recursive_types(K)]
#[verifier::ext_equal]
pub struct TableView<K, T> {
    /// The objects behind the handles that are valid now.
    pub live: Map<Handle<K>, T>,
    /// The handles that were valid once.
    pub retired: Set<Handle<K>>,
    /// Who each valid handle belongs to: the number under which the host
    /// knows the library that made it, or whatever else the host goes by.
    pub owners: Map<Handle<K>, u64>,
}

impl<K, T> TableView<K, T> {
    /// The table in which nothing was ever stored: no handle is valid, none
    /// is stale, none has an owner.
    pub open spec fn empty() -> Self {
        TableView { live: Map::empty(), retired: Set::empty(), owners: Map::empty() }
    }

    /// What a lookup of `h` reports.
    pub open spec fn lookup(self, h: Handle<K>) -> Result<T, HandleError> {
        if self.live.dom().contains(h) {
            Ok(self.live[h])
        } else if self.retired.contains(h) {
            Err(HandleError::Stale)
        } else {
            Err(HandleError::Unknown)
        }
    }

    /// The table after `h` was destroyed; unchanged where `h` is not valid.
    pub open spec fn remove(self, h: Handle<K>) -> Self {
        if self.live.dom().contains(h) {
            TableView {
                live: self.live.remove(h),
                retired: self.retired.insert(h),
                owners: self.owners.remove(h),
            }
        } else {
            self
        }
    }

    /// Whether `after` is this table with `value` stored for `owner` under
    /// the new handle `h`: `h` was never seen before, and nothing else
    /// changed.
    pub open spec fn inserted(self, value: T, owner: u64, h: Handle<K>, after: Self) -> bool {
        &&& !self.live.dom().contains(h)
        &&& !self.retired.contains(h)
        &&& h.generation() > 0
        &&& after.live == self.live.insert(h, value)
        &&& after.retired == self.retired
        &&& after.owners == self.owners.insert(h, owner)
    }

    /// The valid handles that belong to `owner`.
    pub open spec fn owned_by(self, owner: u64) -> Set<Handle<K>> {
        Set::new(|h: Handle<K>| self.live.dom().contains(h) && self.owners[h] == owner)
    }

    /// The table after everything that belongs to `owner` was destroyed.
    pub open spec fn purge(self, owner: u64) -> Self {
        TableView {
            live: self.live.remove_keys(self.owned_by(owner)),
            retired: self.retired.union(self.owned_by(owner)),
            owners: self.owners.remove_keys(self.owned_by(owner)),
        }
    }

    /// Whether `after` is this table with one object more, stored under the
    /// new handle `h`: `h` was never seen before, and nothing else changed.
    pub open spec fn added(self, h: Handle<K>, after: Self) -> bool {
        &&& !self.live.dom().contains(h)
        &&& !self.retired.contains(h)
        &&& h.generation() > 0
        &&& after.live.dom() == self.live.dom().insert(h)
        &&& after.retired == self.retired
        &&& after.owners == self.owners.insert(h, after.owners[h])
        &&& forall|k: Handle<K>| #[trigger] self.live.dom().contains(k) ==> after.live[k] == self.live[k]
    }

    /// Whether `after` is this table with the object behind `h` changed and
    /// nothing else.
    pub open spec fn changed(self, h: Handle<K>, after: Self) -> bool {
        &&& self.live.dom().contains(h)
        &&& after.live.dom() == self.live.dom()
        &&& after.retired == self.retired
        &&& after.owners == self.owners
        &&& forall|k: Handle<K>|
            #[trigger] self.live.dom().contains(k) && k != h ==> after.live[k] == self.live[k]
    }

    /// The table after the object behind `h` was replaced by `value`;
    /// unchanged where `h` is not valid.
    pub open spec fn replace(self, h: Handle<K>, value: T) -> Self {
        if self.live.dom().contains(h) {
            TableView { live: self.live.insert(h, value), ..self }
        } else {
            self
        }
    }

    /// No handle is valid and destroyed at once, the null handle is
    /// neither, and the handles that belong to someone are the valid ones.
    pub open spec fn wf(self) -> bool {
        &&& forall|h: Handle<K>| #[trigger] self.owners.dom().contains(h) <==> self.live.dom().contains(h)
        &&& forall|h: Handle<K>| #[trigger] self.live.dom().contains(h) ==> !self.retired.contains(h)
        &&& forall|h: Handle<K>|
            h.generation() == 0 ==> !(#[trigger] self.live.dom().contains(h))
        &&& forall|h: Handle<K>| h.generation() == 0 ==> !(#[trigger] self.retired.contains(h))
    }
}

/// A handle that was destroyed is told apart from then on: destroying it
/// again, or looking it up, reports it as stale, and the table is left as it
/// is.
pub proof fn law_destroyed_handle_is_stale<K, T>(table: TableView<K, T>, h: Handle<K>)
    requires
        table.wf(),
        table.lookup(h) is Ok,
    ensures
        table.remove(h).wf(),
        table.remove(h).lookup(h) == Err::<T, HandleError>(HandleError::Stale),
        table.remove(h).remove(h) == table.remove(h),
{
}

/// A stale handle stays stale whatever is stored, replaced or destroyed
/// afterwards: no later handle is the same handle.
pub proof fn law_stale_handle_stays_stale<K, T>(
    table: TableView<K, T>,
    h: Handle<K>,
    value: T,
    owner: u64,
    other: Handle<K>,
    after: TableView<K, T>,
)
    requires
        table.wf(),
        table.lookup(h) == Err::<T, HandleError>(HandleError::Stale),
        table.inserted(value, owner, other, after) || after == table.remove(other) || after
            == table.replace(other, value) || after == table.purge(owner),
    ensures
        after.wf(),
        after.lookup(h) == Err::<T, HandleError>(HandleError::Stale),
        table.inserted(value, owner, other, after) ==> other != h,
{
}

/// When everything that belongs to an owner is destroyed, every handle of
/// the owner is stale and nothing of the owner is left; what belongs to
/// others is as it was.
pub proof fn law_purge_leaves_nothing_behind<K, T>(table: TableView<K, T>, owner: u64, h: Handle<K>)
    requires
        table.wf(),
        table.live.dom().contains(h),
    ensures
        table.purge(owner).wf(),
        table.purge(owner).owned_by(owner) == Set::<Handle<K>>::empty(),
        table.owners[h] == owner ==> table.purge(owner).lookup(h) == Err::<T, HandleError>(
            HandleError::Stale,
        ),
        table.owners[h] != owner ==> table.purge(owner).lookup(h) == table.lookup(h)
            && table.purge(owner).owners[h] == table.owners[h],
{
    assert(table.purge(owner).owned_by(owner) =~= Set::<Handle<K>>::empty());
}

/// Whether slot `i` is free and can be given out again.
spec fn reusable<T>(values: Seq<Option<T>>, generations: Seq<u32>, i: int) -> bool {
    values[i] is None && generations[i] < u32::MAX
}

/// How many of the first `bound` slots are free and can be given out
/// again.
spec fn free_below<T>(values: Seq<Option<T>>, generations: Seq<u32>, bound: nat) -> nat
    decreases bound,
{
    if bound == 0 {
        0
    } else {
        free_below(values, generations, (bound - 1) as nat) + (if reusable(
            values,
            generations,
            bound - 1,
        ) {
            1nat
        } else {
            0nat
        })
    }
}

/// Two tables whose first `bound` slots agree, but for slot `i`, in being
/// free or not have the same count of free slots but for that slot.
proof fn lemma_free_below<T>(
    a: Seq<Option<T>>,
    ga: Seq<u32>,
    b: Seq<Option<T>>,
    gb: Seq<u32>,
    i: int,
    bound: nat,
)
    requires
        forall|k: int| 0 <= k < bound && k != i ==> reusable(a, ga, k) == reusable(b, gb, k),
    ensures
        free_below(a, ga, bound) + (if 0 <= i < bound && reusable(b, gb, i) {
            1nat
        } else {
            0nat
        }) == free_below(b, gb, bound) + (if 0 <= i < bound && reusable(a, ga, i) {
            1nat
        } else {
            0nat
        }),
        free_below(a, ga, bound) <= bound,
    decreases bound,
{
    if bound > 0 {
        lemma_free_below(a, ga, b, gb, i, (bound - 1) as nat);
    }
}

/// An arena of objects of type `T`, each reached through a `Handle<K>`.
pub struct HandleTable<K, T> {
    values: Vec<Option<T>>,
    generations: Vec<u32>,
    owners: Vec<u64>,
    kind: PhantomData<K>,
}

impl<K, T> HandleTable<K, T> {
    /// The representation is consistent: one generation per slot, none of
    /// them zero, and no more slots than a handle can address.
    pub closed spec fn wf(&self) -> bool {
        &&& self.values.len() == self.generations.len()
        &&& self.values.len() == self.owners.len()
        &&& self.values.len() <= u32::MAX
        &&& forall|i: int| 0 <= i < self.generations.len() ==> #[trigger] self.generations[i] >= 1
        &&& forall|i: int|
            0 <= i < self.values.len() && #[trigger] self.generations[i] == u32::MAX
                ==> self.values[i] is None
    }

    closed spec fn slot_live(&self, h: Handle<K>) -> bool {
        &&& h.slot() < self.values.len()
        &&& self.generations[h.slot() as int] == h.generation()
        &&& self.values[h.slot() as int] is Some
    }

    closed spec fn slot_retired(&self, h: Handle<K>) -> bool {
        &&& h.slot() < self.values.len()
        &&& 1 <= h.generation() < self.generations[h.slot() as int]
    }

    /// The table as mathematics.
    pub closed spec fn view(&self) -> TableView<K, T> {
        TableView {
            live: Map::new(
                |h: Handle<K>| self.slot_live(h),
                |h: Handle<K>| self.values[h.slot() as int].unwrap(),
            ),
            retired: Set::new(|h: Handle<K>| self.slot_retired(h)),
            owners: Map::new(
                |h: Handle<K>| self.slot_live(h),
                |h: Handle<K>| self.owners[h.slot() as int],
            ),
        }
    }

    /// How many more objects can be stored: the slots that are free for
    /// reuse, and the slots that can still be added.
    pub closed spec fn room(&self) -> nat {
        (u32::MAX - self.values.len()) as nat + free_below(
            self.values@,
            self.generations@,
            self.values.len() as nat,
        )
    }

    /// Whether one more object can be stored.
    pub open spec fn has_room(&self) -> bool {
        self.room() > 0
    }

    /// In a well-formed table no handle is valid and stale at once, and the
    /// null handle is neither.
    pub proof fn law_valid_and_stale_never_meet(&self)
        requires
            self.wf(),
        ensures
            self@.wf(),
    {
    }

    /// An empty table.
    pub fn new() -> (table: Self)
        ensures
            table.wf(),
            table@ == TableView::<K, T>::empty(),
            table.room() == u32::MAX,
    {
        let table = HandleTable {
            values: Vec::new(),
            generations: Vec::new(),
            owners: Vec::new(),
            kind: PhantomData,
        };
        assert(table@.live =~= Map::<Handle<K>, T>::empty());
        assert(table@.retired =~= Set::<Handle<K>>::empty());
        assert(table@.owners =~= Map::<Handle<K>, u64>::empty());
        assert(table@ =~~= TableView::<K, T>::empty());
        table
    }

    /// Whether `n` more objects can be stored.
    pub fn has_room_for(&self, n: usize) -> (b: bool)
        requires
            self.wf(),
        ensures
            b == (self.room() >= n),
    {
        let fresh: usize = u32::MAX as usize - self.values.len();
        if fresh >= n {
            return true;
        }
        let mut free: usize = 0;
        let mut i: usize = 0;
        while i < self.values.len()
            invariant
                self.wf(),
                i <= self.values.len(),
                free == free_below(self.values@, self.generations@, i as nat),
                free <= i,
            decreases self.values.len() - i,
        {
            if self.values[i].is_none() && self.generations[i] < u32::MAX {
                free += 1;
            }
            i += 1;
        }
        free >= n - fresh
    }

    /// Stores `value` for `owner` and mints the handle that owns it. `None`
    /// when the table is full; the value is then dropped.
    pub fn insert(&mut self, value: T, owner: u64) -> (r: Option<Handle<K>>)
        requires
            old(self).wf(),
        ensures
            final(self).wf(),
            r is Some <==> old(self).has_room(),
            r matches Some(h) ==> old(self)@.inserted(value, owner, h, final(self)@),
            r is Some ==> final(self).room() == old(self).room() - 1,
            r is None ==> final(self)@ == old(self)@ && final(self).room() == old(self).room(),
    {
        let mut i: usize = 0;
        while i < self.values.len() && !(self.values[i].is_none() && self.generations[i]
            < u32::MAX)
            invariant
                self.wf(),
                i <= self.values.len(),
                free_below(self.values@, self.generations@, i as nat) == 0,
            decreases self.values.len() - i,
        {
            i += 1;
        }
        if i < self.values.len() {
            let generation = self.generations[i];
            let h = Handle { slot: i as u32, generation, kind: PhantomData };
            self.values.set(i, Some(value));
            self.owners.set(i, owner);
            proof {
                assert(final(self)@.owners =~= old(self)@.owners.insert(h, owner)) by {
                    assert forall|k: Handle<K>|
                        final(self)@.owners.dom().contains(k) <==> old(self)@.owners.insert(
                            h,
                            owner,
                        ).dom().contains(k) by {
                        if k.slot() == h.slot() && k.generation() == h.generation() {
                            k.lemma_eq(h);
                        }
                    }
                }
                assert(final(self)@.live =~= old(self)@.live.insert(h, value)) by {
                    assert forall|k: Handle<K>|
                        final(self)@.live.dom().contains(k) <==> old(self)@.live.insert(
                            h,
                            value,
                        ).dom().contains(k) by {
                        if k.slot() == h.slot() && k.generation() == h.generation() {
                            k.lemma_eq(h);
                        }
                    }
                }
                assert(final(self)@.retired =~= old(self)@.retired);
                lemma_free_below(
                    old(self).values@,
                    old(self).generations@,
                    final(self).values@,
                    final(self).generations@,
                    i as int,
                    old(self).values.len() as nat,
                );
            }
            Some(h)
        } else if self.values.len() < u32::MAX as usize {
            let h = Handle { slot: i as u32, generation: 1, kind: PhantomData };
            self.values.push(Some(value));
            self.generations.push(1);
            self.owners.push(owner);
            proof {
                assert(final(self)@.owners =~= old(self)@.owners.insert(h, owner)) by {
                    assert forall|k: Handle<K>|
                        final(self)@.owners.dom().contains(k) <==> old(self)@.owners.insert(
                            h,
                            owner,
                        ).dom().contains(k) by {
                        if k.slot() == h.slot() && k.generation() == h.generation() {
                            k.lemma_eq(h);
                        }
                    }
                }
                assert(final(self)@.live =~= old(self)@.live.insert(h, value)) by {
                    assert forall|k: Handle<K>|
                        final(self)@.live.dom().contains(k) <==> old(self)@.live.insert(
                            h,
                            value,
                        ).dom().contains(k) by {
                        if k.slot() == h.slot() && k.generation() == h.generation() {
                            k.lemma_eq(h);
                        }
                    }
                }
                assert(final(self)@.retired =~= old(self)@.retired);
                lemma_free_below(
                    old(self).values@,
                    old(self).generations@,
                    final(self).values@,
                    final(self).generations@,
                    -1,
                    old(self).values.len() as nat,
                );
            }
            Some(h)
        } else {
            None
        }
    }

    /// What the table reports for `h`, without touching it.
    pub fn check(&self, h: Handle<K>) -> (r: Result<(), HandleError>)
        requires
            self.wf(),
        ensures
            r is Ok <==> self@.live.dom().contains(h),
            r matches Err(e) ==> self@.lookup(h) == Err::<T, HandleError>(e),
    {
        let slot = h.slot as usize;
        if slot < self.values.len() {
            if self.generations[slot] == h.generation && self.values[slot].is_some() {
                Ok(())
            } else if 1 <= h.generation && h.generation < self.generations[slot] {
                Err(HandleError::Stale)
            } else {
                Err(HandleError::Unknown)
            }
        } else {
            Err(HandleError::Unknown)
        }
    }

    /// The object behind `h`.
    pub fn get(&self, h: Handle<K>) -> (r: Result<&T, HandleError>)
        requires
            self.wf(),
        ensures
            match r {
                Ok(value) => self@.lookup(h) == Ok::<T, HandleError>(*value),
                Err(e) => self@.lookup(h) == Err::<T, HandleError>(e),
            },
    {
        match self.check(h) {
            Ok(()) => {
                match &self.values[h.slot as usize] {
                    Some(value) => Ok(value),
                    None => Err(HandleError::Unknown),
                }
            },
            Err(e) => Err(e),
        }
    }

    /// The object behind `h`, open to changes. Whatever it is changed to is
    /// the object behind `h` afterwards; nothing else changes.
    pub fn get_mut(&mut self, h: Handle<K>) -> (r: Result<&mut T, HandleError>)
        requires
            old(self).wf(),
        ensures
            match r {
                Ok(value) => {
                    &&& old(self)@.lookup(h) == Ok::<T, HandleError>(*value)
                    &&& final(self)@ =~~= old(self)@.replace(h, *final(value))
                    &&& final(self).wf()
                    &&& final(self).room() == old(self).room()
                },
                Err(e) => {
                    &&& old(self)@.lookup(h) == Err::<T, HandleError>(e)
                    &&& *final(self) == *old(self)
                },
            },
    {
        proof {
            assert forall|k: Handle<K>|
                #[trigger] k.slot() == h.slot() && k.generation() == h.generation() implies k
                == h by {
                k.lemma_eq(h);
            }
            assert forall|values: Seq<Option<T>>|
                values.len() == old(self).values@.len() && (forall|k: int|
                    0 <= k < values.len() ==> (#[trigger] values[k] is None) == (old(
                        self,
                    ).values@[k] is None)) implies #[trigger] free_below(
                values,
                old(self).generations@,
                old(self).values@.len(),
            ) == free_below(old(self).values@, old(self).generations@, old(self).values@.len()) by {
                lemma_free_below(
                    old(self).values@,
                    old(self).generations@,
                    values,
                    old(self).generations@,
                    -1,
                    old(self).values@.len(),
                );
            }
        }
        match self.check(h) {
            Ok(()) => {
                match &mut self.values[h.slot as usize] {
                    Some(value) => Ok(value),
                    None => Err(HandleError::Unknown),
                }
            },
            Err(e) => Err(e),
        }
    }

    /// Puts `value` in place of the object behind `h` and returns the old
    /// object. The handle stays valid.
    pub fn replace(&mut self, h: Handle<K>, value: T) -> (r: Result<T, HandleError>)
        requires
            old(self).wf(),
        ensures
            final(self).wf(),
            r == old(self)@.lookup(h),
            final(self)@ == old(self)@.replace(h, value),
            final(self).room() == old(self).room(),
    {
        match self.check(h) {
            Ok(()) => {
                let slot = h.slot as usize;
                let cell = self.swap_cell(slot, Some(value));
                proof {
                    assert(final(self)@.owners =~= old(self)@.owners);
                    lemma_free_below(
                        old(self).values@,
                        old(self).generations@,
                        final(self).values@,
                        final(self).generations@,
                        -1,
                        old(self).values.len() as nat,
                    );
                    assert(final(self)@.live =~= old(self)@.live.insert(h, value)) by {
                        assert forall|k: Handle<K>|
                            final(self)@.live.dom().contains(k) <==> old(self)@.live.insert(
                                h,
                                value,
                            ).dom().contains(k) by {
                            if k.slot() == h.slot() && k.generation() == h.generation() {
                                k.lemma_eq(h);
                            }
                        }
                    }
                    assert(final(self)@.retired =~= old(self)@.retired);
                }
                match cell {
                    Some(old_value) => Ok(old_value),
                    None => Err(HandleError::Unknown),
                }
            },
            Err(e) => Err(e),
        }
    }

    /// Who the object behind `h` belongs to.
    pub fn owner_of(&self, h: Handle<K>) -> (r: Result<u64, HandleError>)
        requires
            self.wf(),
        ensures
            match r {
                Ok(owner) => self@.live.dom().contains(h) && self@.owners[h] == owner,
                Err(e) => self@.lookup(h) == Err::<T, HandleError>(e),
            },
    {
        match self.check(h) {
            Ok(()) => Ok(self.owners[h.slot as usize]),
            Err(e) => Err(e),
        }
    }

    /// Destroys everything that belongs to `owner`. The handles are stale
    /// from now on; the objects are dropped.
    pub fn purge(&mut self, owner: u64)
        requires
            old(self).wf(),
        ensures
            final(self).wf(),
            final(self)@ == old(self)@.purge(owner),
            final(self).room() >= old(self).room(),
    {
        let mut i: usize = 0;
        while i < self.values.len()
            invariant
                self.wf(),
                i <= self.values.len(),
                self.values.len() == old(self).values.len(),
                self.owners == old(self).owners,
                self.room() >= old(self).room(),
                forall|j: int|
                    0 <= j < self.values.len() ==> (#[trigger] self.values[j], self.generations[j])
                        == (if j < i && old(self).values[j] is Some && old(self).owners[j] == owner {
                        (None::<T>, (old(self).generations[j] + 1) as u32)
                    } else {
                        (old(self).values[j], old(self).generations[j])
                    }),
            decreases self.values.len() - i,
        {
            if self.values[i].is_some() && self.owners[i] == owner {
                let ghost before = *self;
                let generation = self.generations[i];
                let _ = self.swap_cell(i, None);
                self.generations.set(i, generation + 1);
                proof {
                    lemma_free_below(
                        before.values@,
                        before.generations@,
                        self.values@,
                        self.generations@,
                        i as int,
                        before.values.len() as nat,
                    );
                }
            }
            i += 1;
        }
        proof {
            let before = old(self)@;
            let after = final(self)@;
            assert forall|k: Handle<K>|
                #[trigger] after.live.dom().contains(k) <==> before.purge(owner).live.dom().contains(
                    k,
                ) by {
                if k.slot() < self.values.len() {
                    assert(self.values[k.slot() as int] == self.values[k.slot() as int]);
                }
            }
            assert(after.live =~= before.purge(owner).live);
            assert(after.owners =~= before.purge(owner).owners);
            assert forall|k: Handle<K>|
                #[trigger] after.retired.contains(k) <==> before.purge(owner).retired.contains(k) by {
                if k.slot() < self.values.len() {
                    assert(self.values[k.slot() as int] == self.values[k.slot() as int]);
                }
            }
            assert(after.retired =~= before.purge(owner).retired);
        }
    }

    fn swap_cell(&mut self, slot: usize, cell: Option<T>) -> (taken: Option<T>)
        requires
            slot < old(self).values.len(),
        ensures
            taken == old(self).values[slot as int],
            final(self).values@ == old(self).values@.update(slot as int, cell),
            final(self).generations == old(self).generations,
            final(self).owners == old(self).owners,
    {
        let mut cell = cell;
        core::mem::swap(&mut self.values[slot], &mut cell);
        let taken = cell;
        taken
    }

    /// Destroys `h` and hands back the object it owned. A handle destroyed
    /// before is reported as `Stale`, one never issued as `Unknown`; the
    /// table is then unchanged.
    pub fn remove(&mut self, h: Handle<K>) -> (r: Result<T, HandleError>)
        requires
            old(self).wf(),
        ensures
            final(self).wf(),
            r == old(self)@.lookup(h),
            final(self)@ == old(self)@.remove(h),
            final(self).room() >= old(self).room(),
    {
        match self.check(h) {
            Ok(()) => {
                let slot = h.slot as usize;
                let taken = self.swap_cell(slot, None);
                self.generations.set(slot, h.generation + 1);
                proof {
                    assert(final(self)@.owners =~= old(self)@.owners.remove(h)) by {
                        assert forall|k: Handle<K>|
                            final(self)@.owners.dom().contains(k) <==> old(self)@.owners.remove(
                                h,
                            ).dom().contains(k) by {
                            if k.slot() == h.slot() && k.generation() == h.generation() {
                                k.lemma_eq(h);
                            }
                        }
                    }
                    lemma_free_below(
                        old(self).values@,
                        old(self).generations@,
                        final(self).values@,
                        final(self).generations@,
                        slot as int,
                        old(self).values.len() as nat,
                    );
                    assert(final(self)@.live =~= old(self)@.live.remove(h)) by {
                        assert forall|k: Handle<K>|
                            final(self)@.live.dom().contains(k) <==> old(self)@.live.remove(
                                h,
                            ).dom().contains(k) by {
                            if k.slot() == h.slot() && k.generation() == h.generation() {
                                k.lemma_eq(h);
                            }
                        }
                    }
                    assert(final(self)@.retired =~= old(self)@.retired.insert(h)) by {
                        assert forall|k: Handle<K>|
                            final(self)@.retired.contains(k) <==> old(self)@.retired.insert(
                                h,
                            ).contains(k) by {
                            if k.slot() == h.slot() && k.generation() == h.generation() {
                                k.lemma_eq(h);
                            }
                        }
                    }
                }
                match taken {
                    Some(value) => Ok(value),
                    None => Err(HandleError::Unknown),
                }
            },
            Err(e) => Err(e),
        }
    }
}

} // verus!
