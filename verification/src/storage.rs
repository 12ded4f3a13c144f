//! Byte blobs keyed by component id: what one entity carries, and what the
//! world holds as resources.
use crate::component::ComponentId;
use vstd::prelude::*;

verus! {

/// A set of values, at most one per component id, each a blob of bytes.
pub struct Blobs {
    cells: Vec<Option<Vec<u8>>>,
}

impl Blobs {
    /// The values as a map from component id to bytes.
    pub closed spec fn view(&self) -> Map<ComponentId, Seq<u8>> {
        Map::new(
            |id: ComponentId| id.index < self.cells.len() && self.cells[id.index as int] is Some,
            |id: ComponentId| self.cells[id.index as int].unwrap()@,
        )
    }

    /// No values.
    pub fn new() -> (blobs: Self)
        ensures
            blobs@ == Map::<ComponentId, Seq<u8>>::empty(),
    {
        let blobs = Blobs { cells: Vec::new() };
        assert(blobs@ =~= Map::<ComponentId, Seq<u8>>::empty());
        blobs
    }

    /// Whether there is a value for `id`.
    pub fn contains(&self, id: ComponentId) -> (b: bool)
        ensures
            b == self@.dom().contains(id),
    {
        id.index < self.cells.len() && self.cells[id.index].is_some()
    }

    /// The value for `id`, in place.
    pub fn get(&self, id: ComponentId) -> (r: Option<&[u8]>)
        ensures
            r is Some <==> self@.dom().contains(id),
            r matches Some(bytes) ==> bytes@ == self@[id],
    {
        if id.index < self.cells.len() {
            match &self.cells[id.index] {
                Some(bytes) => Some(bytes.as_slice()),
                None => None,
            }
        } else {
            None
        }
    }

    /// The value for `id`, in place and open to writes. Whatever is written
    /// through the slice is the value afterwards; nothing else changes.
    pub fn get_mut(&mut self, id: ComponentId) -> (r: Option<&mut [u8]>)
        ensures
            r is Some <==> old(self)@.dom().contains(id),
            r is None ==> *final(self) == *old(self),
            r matches Some(bytes) ==> {
                &&& bytes@ == old(self)@[id]
                &&& final(self)@ == old(self)@.insert(id, final(bytes)@)
            },
    {
        if id.index < self.cells.len() && self.cells[id.index].is_some() {
            let cell = &mut self.cells[id.index];
            match cell {
                Some(bytes) => {
                    Some(bytes.as_mut_slice())
                },
                None => None,
            }
        } else {
            None
        }
    }

    /// Stores `bytes` as the value for `id`, in place of any value that was
    /// there.
    pub fn set(&mut self, id: ComponentId, bytes: Vec<u8>)
        ensures
            final(self)@ == old(self)@.insert(id, bytes@),
    {
        while self.cells.len() <= id.index
            invariant
                self@ == old(self)@,
            decreases id.index + 1 - self.cells.len(),
        {
            let ghost before = *self;
            self.cells.push(None);
            assert(self@ =~= before@);
        }
        let ghost before = *self;
        self.cells.set(id.index, Some(bytes));
        assert(self@ =~= before@.insert(id, bytes@));
    }

    /// Takes the value for `id` away and returns it.
    pub fn take(&mut self, id: ComponentId) -> (r: Option<Vec<u8>>)
        ensures
            r is Some <==> old(self)@.dom().contains(id),
            r matches Some(bytes) ==> bytes@ == old(self)@[id],
            final(self)@ == old(self)@.remove(id),
    {
        if id.index < self.cells.len() {
            let mut cell: Option<Vec<u8>> = None;
            core::mem::swap(&mut self.cells[id.index], &mut cell);
            assert(final(self)@ =~= old(self)@.remove(id));
            cell
        } else {
            assert(final(self)@ =~= old(self)@.remove(id));
            None
        }
    }

    /// Takes every value away.
    pub fn clear(&mut self)
        ensures
            final(self)@ == Map::<ComponentId, Seq<u8>>::empty(),
    {
        self.cells.clear();
        assert(final(self)@ =~= Map::<ComponentId, Seq<u8>>::empty());
    }
}

} // verus!
