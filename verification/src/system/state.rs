//! The state of a system between runs: what it declared, whether its
//! parameters are out, and the commands that wait to be applied.
use crate::query::{copy_terms, Query};
use crate::system::builder::{check_params, valid_queries};
use crate::system::commands::{Callback, Commands};
use crate::system::param::{
    dyn_views,
    fresh_params,
    param_views,
    queued,
    queued_below,
    same_kinds,
    DeferredWorld,
    DynParam,
    DynParamView,
    ParamDescriptor,
    ParamView,
};
use crate::system::SystemError;
use crate::world::{World, WorldView};
use vstd::prelude::*;

verus! {

/// A system state as mathematics.
pub struct SystemStateView {
    /// The declared parameters, in order.
    pub params: Seq<ParamView>,
    /// The commands released and not applied yet, oldest first.
    pub pending: Seq<Callback>,
    /// Whether the parameters are out.
    pub fetched: bool,
}

impl SystemStateView {
    /// What a fetch answers.
    pub open spec fn check_get(self, world: WorldView) -> Result<(), SystemError> {
        if self.fetched {
            Err(SystemError::AlreadyFetched)
        } else if self.pending.len() > 0 {
            Err(SystemError::NotApplied)
        } else if !valid_queries(self.params, world) {
            Err(SystemError::InvalidQuery)
        } else {
            Ok(())
        }
    }

    /// What a release of `params` answers.
    pub open spec fn check_release(self, params: Seq<DynParamView>) -> Result<(), SystemError> {
        if !self.fetched {
            Err(SystemError::NotFetched)
        } else if !same_kinds(self.params, params) {
            Err(SystemError::Mismatch)
        } else {
            Ok(())
        }
    }

    /// What turning the state into a system answers.
    pub open spec fn check_build(self) -> Result<(), SystemError> {
        if self.fetched {
            Err(SystemError::AlreadyFetched)
        } else if self.pending.len() > 0 {
            Err(SystemError::NotApplied)
        } else {
            Ok(())
        }
    }
}

/// What a system declared as parameters, ready to be fetched run after run.
///
/// A run goes through three steps: `get` hands the parameters out,
/// `release` takes them back together with the commands queued in them, and
/// `apply` hands the commands over to be run.
pub struct SystemState {
    params: Vec<ParamDescriptor>,
    pending: Vec<Callback>,
    fetched: bool,
}

impl SystemState {
    /// The state as mathematics.
    pub closed spec fn view(&self) -> SystemStateView {
        SystemStateView {
            params: param_views(self.params@),
            pending: self.pending@,
            fetched: self.fetched,
        }
    }

    pub(crate) fn from_params(params: Vec<ParamDescriptor>) -> (state: Self)
        ensures
            state@.params == param_views(params@),
            state@.pending == Seq::<Callback>::empty(),
            !state@.fetched,
    {
        SystemState { params, pending: Vec::new(), fetched: false }
    }

    /// How many parameters the system declared.
    pub fn param_count(&self) -> (n: usize)
        ensures
            n == self@.params.len(),
    {
        self.params.len()
    }

    /// Whether the parameters are out.
    pub fn is_fetched(&self) -> (b: bool)
        ensures
            b == self@.fetched,
    {
        self.fetched
    }

    /// How many commands wait to be applied.
    pub fn pending_count(&self) -> (n: usize)
        ensures
            n == self@.pending.len(),
    {
        self.pending.len()
    }

    /// Whether a fetch in `world` would succeed.
    pub fn can_get(&self, world: &World) -> (b: bool)
        ensures
            b == (self@.check_get(world@) is Ok),
    {
        !self.fetched && self.pending.len() == 0 && crate::system::builder::queries_known(
            &self.params,
            world,
        )
    }

    /// Hands the parameters out: one for each declared parameter, in the
    /// order of the declarations, each freshly made. Fails, and changes
    /// nothing, while the parameters of an earlier fetch are out, while
    /// commands wait to be applied, and where `world` does not know a
    /// component that a query names.
    pub fn get(&mut self, world: &World) -> (r: Result<Vec<DynParam>, SystemError>)
        ensures
            match r {
                Ok(params) => {
                    &&& old(self)@.check_get(world@) is Ok
                    &&& dyn_views(params@) == fresh_params(old(self)@.params)
                    &&& final(self)@ == (SystemStateView { fetched: true, ..old(self)@ })
                },
                Err(e) => {
                    &&& old(self)@.check_get(world@) == Err::<(), SystemError>(e)
                    &&& final(self)@ == old(self)@
                },
            },
    {
        if self.fetched {
            return Err(SystemError::AlreadyFetched);
        }
        if self.pending.len() > 0 {
            return Err(SystemError::NotApplied);
        }
        if !crate::system::builder::queries_known(&self.params, world) {
            return Err(SystemError::InvalidQuery);
        }
        let mut out: Vec<DynParam> = Vec::new();
        let mut i: usize = 0;
        while i < self.params.len()
            invariant
                i <= self.params.len(),
                out@.len() == i,
                forall|k: int|
                    0 <= k < i ==> (#[trigger] out@[k])@ == param_views(self.params@)[k].fresh(),
            decreases self.params.len() - i,
        {
            let param = match &self.params[i] {
                ParamDescriptor::Query(terms) => DynParam::Query(Query::new(copy_terms(terms))),
                ParamDescriptor::Commands => DynParam::Commands(Commands::new()),
                ParamDescriptor::DeferredWorld => DynParam::DeferredWorld(DeferredWorld::new()),
            };
            out.push(param);
            i += 1;
        }
        self.fetched = true;
        assert(dyn_views(out@) =~= fresh_params(old(self)@.params));
        Ok(out)
    }

    /// Takes the parameters of the running fetch back, and with them the
    /// commands queued in them: these now wait to be applied, behind the
    /// commands that waited before. Fails, and changes nothing, where no
    /// parameters are out or where those handed back are not, kind by kind,
    /// those declared.
    pub fn release(&mut self, params: Vec<DynParam>) -> (r: Result<(), SystemError>)
        ensures
            r == old(self)@.check_release(dyn_views(params@)),
            final(self)@ == (if r is Ok {
                SystemStateView {
                    pending: old(self)@.pending + queued(dyn_views(params@)),
                    fetched: false,
                    ..old(self)@
                }
            } else {
                old(self)@
            }),
    {
        if !self.fetched {
            return Err(SystemError::NotFetched);
        }
        if !self.has_same_kinds(&params) {
            return Err(SystemError::Mismatch);
        }
        let mut i: usize = 0;
        while i < params.len()
            invariant
                i <= params.len(),
                self.params == old(self).params,
                self.fetched == old(self).fetched,
                self.pending@ == old(self).pending@ + queued_below(dyn_views(params@), i as nat),
            decreases params.len() - i,
        {
            match &params[i] {
                DynParam::Commands(commands) => {
                    commands.append_to(&mut self.pending);
                },
                _ => {},
            }
            i += 1;
        }
        self.fetched = false;
        Ok(())
    }

    /// Whether `params` are, kind by kind, the declared parameters.
    fn has_same_kinds(&self, params: &Vec<DynParam>) -> (r: bool)
        ensures
            r == same_kinds(self@.params, dyn_views(params@)),
    {
        if self.params.len() != params.len() {
            return false;
        }
        let mut i: usize = 0;
        while i < params.len()
            invariant
                i <= params.len(),
                self.params.len() == params.len(),
                forall|k: int|
                    0 <= k < i ==> self@.params[k].kind() == (#[trigger] dyn_views(
                        params@,
                    )[k]).kind(),
            decreases params.len() - i,
        {
            if !self.params[i].kind().same_as(params[i].kind()) {
                assert(self@.params[i as int].kind() != dyn_views(params@)[i as int].kind());
                return false;
            }
            i += 1;
        }
        true
    }

    /// Hands over the commands that wait to be applied, oldest first, for
    /// the caller to run each of them once, in that order. None of them
    /// waits any longer.
    pub fn apply(&mut self) -> (commands: Vec<Callback>)
        ensures
            commands@ == old(self)@.pending,
            final(self)@ == (SystemStateView { pending: Seq::empty(), ..old(self)@ }),
    {
        let mut commands: Vec<Callback> = Vec::new();
        core::mem::swap(&mut commands, &mut self.pending);
        commands
    }

    /// Binds the state to the guest function that is the system's body.
    /// Fails where parameters are out or commands wait to be applied; the
    /// state is spent either way.
    pub fn build(self, callback: Callback) -> (r: Result<SystemRef, SystemError>)
        ensures
            match r {
                Ok(system) => {
                    &&& self@.check_build() is Ok
                    &&& system.state() == self@
                    &&& system.callback() == callback
                },
                Err(e) => self@.check_build() == Err::<(), SystemError>(e),
            },
    {
        if self.fetched {
            return Err(SystemError::AlreadyFetched);
        }
        if self.pending.len() > 0 {
            return Err(SystemError::NotApplied);
        }
        Ok(SystemRef { state: self, callback })
    }
}

/// One call that the host owes a guest function: the function and its
/// context, and the parameters to hand it.
pub struct SystemRun {
    pub callback: Callback,
    pub params: Vec<DynParam>,
}

/// A system ready to run: a system state bound to the guest function that
/// is its body.
pub struct SystemRef {
    state: SystemState,
    callback: Callback,
}

impl SystemRef {
    /// The state of the system.
    pub closed spec fn state(&self) -> SystemStateView {
        self.state@
    }

    /// The guest function that is the system's body.
    pub closed spec fn callback(&self) -> Callback {
        self.callback
    }

    /// Starts a run: fetches the parameters and answers with the call that
    /// the host owes the body. Fails, and changes nothing, where the fetch
    /// fails.
    pub fn begin_run(&mut self, world: &World) -> (r: Result<SystemRun, SystemError>)
        ensures
            final(self).callback() == old(self).callback(),
            match r {
                Ok(run) => {
                    &&& old(self).state().check_get(world@) is Ok
                    &&& run.callback == old(self).callback()
                    &&& dyn_views(run.params@) == fresh_params(old(self).state().params)
                    &&& final(self).state() == (SystemStateView {
                        fetched: true,
                        ..old(self).state()
                    })
                },
                Err(e) => {
                    &&& old(self).state().check_get(world@) == Err::<(), SystemError>(e)
                    &&& final(self).state() == old(self).state()
                },
            },
    {
        match self.state.get(world) {
            Ok(params) => Ok(SystemRun { callback: self.callback, params }),
            Err(e) => Err(e),
        }
    }

    /// Ends a run after the body returned: takes the parameters back and
    /// answers with the commands to run now, oldest first. Fails, and
    /// changes nothing, where the release fails.
    pub fn finish_run(&mut self, params: Vec<DynParam>) -> (r: Result<Vec<Callback>, SystemError>)
        ensures
            final(self).callback() == old(self).callback(),
            match r {
                Ok(commands) => {
                    &&& old(self).state().check_release(dyn_views(params@)) is Ok
                    &&& commands@ == old(self).state().pending + queued(dyn_views(params@))
                    &&& final(self).state() == (SystemStateView {
                        pending: Seq::empty(),
                        fetched: false,
                        ..old(self).state()
                    })
                },
                Err(e) => {
                    &&& old(self).state().check_release(dyn_views(params@)) == Err::<
                        (),
                        SystemError,
                    >(e)
                    &&& final(self).state() == old(self).state()
                },
            },
    {
        match self.state.release(params) {
            Ok(()) => Ok(self.state.apply()),
            Err(e) => Err(e),
        }
    }
}

impl World {
    /// Starts a run of `system` on this world: fetches its parameters and
    /// answers with the call that the host owes the body. The run ends
    /// with `SystemRef::finish_run`.
    pub fn run_system_ref(&self, system: &mut SystemRef) -> (r: Result<SystemRun, SystemError>)
        ensures
            final(system).callback() == old(system).callback(),
            match r {
                Ok(run) => {
                    &&& old(system).state().check_get(self@) is Ok
                    &&& run.callback == old(system).callback()
                    &&& dyn_views(run.params@) == fresh_params(old(system).state().params)
                    &&& final(system).state() == (SystemStateView {
                        fetched: true,
                        ..old(system).state()
                    })
                },
                Err(e) => {
                    &&& old(system).state().check_get(self@) == Err::<(), SystemError>(e)
                    &&& final(system).state() == old(system).state()
                },
            },
    {
        system.begin_run(self)
    }
}

} // verus!
