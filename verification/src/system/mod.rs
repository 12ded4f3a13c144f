//! Systems: what a guest function asks for as parameters, how the host
//! hands the parameters over, and what becomes of the commands it queues.
use vstd::prelude::*;

pub mod builder;
pub mod commands;
pub mod observer;
pub mod param;
pub mod state;

pub use builder::{ParamBuilder, ParamCursor};
pub use commands::{Callback, Commands};
pub use observer::{On, OnEntity, SharedEvent};
pub use param::{DynParam, DynParamView, ParamDescriptor, ParamKind, ParamView};
pub use state::{SystemRef, SystemRun, SystemState, SystemStateView};

verus! {

/// Why a step of the parameter protocol was turned down.
#[derive(Clone, Copy, Debug, PartialEq, Eq, Structural)]
pub enum SystemError {
    /// A query among the parameters names an unknown component, or asks a
    /// component to be present and absent at once.
    InvalidQuery,
    /// Two queries among the parameters may touch the same component of the
    /// same entity, one of them writing.
    ConflictingAccess,
    /// The parameters are out and were not released yet.
    AlreadyFetched,
    /// Commands of an earlier run were not applied yet.
    NotApplied,
    /// No parameters are out.
    NotFetched,
    /// The parameters handed back are not those that were handed out.
    Mismatch,
}

/// Marks a system whose first argument is an input and not a parameter.
pub struct InputMarker;

} // verus!
