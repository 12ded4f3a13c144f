//! Deferred commands: callbacks queued now and run later, in the order in
//! which they were queued.
use vstd::prelude::*;

verus! {

/// A guest function and the context it is to be called with, both named by
/// their addresses. The host calls `function(context, ..)`; what the
/// function does is the guest's business.
#[derive(Clone, Copy, Debug, PartialEq, Eq, Structural)]
pub struct Callback {
    pub function: usize,
    pub context: usize,
}

impl Callback {
    /// The callback with the given parts.
    pub fn new(function: usize, context: usize) -> (callback: Self)
        ensures
            callback == (Callback { function, context }),
    {
        Callback { function, context }
    }
}

/// A queue of commands that a system fills while it runs.
pub struct Commands {
    queue: Vec<Callback>,
}

impl Commands {
    /// The commands queued so far, oldest first.
    pub closed spec fn view(&self) -> Seq<Callback> {
        self.queue@
    }

    /// An empty queue.
    pub fn new() -> (commands: Self)
        ensures
            commands@ == Seq::<Callback>::empty(),
    {
        Commands { queue: Vec::new() }
    }

    /// Queues `command` behind the commands queued before. Nothing runs
    /// yet.
    pub fn push(&mut self, command: Callback)
        ensures
            final(self)@ == old(self)@.push(command),
    {
        self.queue.push(command);
    }

    /// How many commands are queued.
    pub fn len(&self) -> (n: usize)
        ensures
            n == self@.len(),
    {
        self.queue.len()
    }

    /// Copies every command of this queue to the end of `target`, in
    /// order.
    pub fn append_to(&self, target: &mut Vec<Callback>)
        ensures
            final(target)@ == old(target)@ + self@,
    {
        let mut i: usize = 0;
        while i < self.queue.len()
            invariant
                i <= self.queue.len(),
                target@ == old(target)@ + self.queue@.take(i as int),
            decreases self.queue.len() - i,
        {
            target.push(self.queue[i]);
            assert(self.queue@.take(i + 1) =~= self.queue@.take(i as int).push(self.queue@[i as int]));
            i += 1;
        }
        assert(self.queue@.take(self.queue.len() as int) =~= self.queue@);
    }
}

} // verus!
