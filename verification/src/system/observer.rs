//! What an observer's body is handed when its event is triggered.
use crate::component::TypePath;
use crate::entity::Entity;
use vstd::prelude::*;

verus! {

/// A plain-old-data type whose values can be triggered as events and
/// observed on both sides of the bridge.
pub trait SharedEvent: TypePath + Sized {

}

/// The input of an observer of every trigger: the event that was
/// triggered.
pub struct On<'a, E> {
    pub event: &'a E,
}

impl<'a, E> On<'a, E> {
    /// The event that was triggered.
    pub fn event(&self) -> (event: &'a E)
        ensures
            event == self.event,
    {
        self.event
    }
}

/// The input of an observer bound to an entity: the entity that the trigger
/// was aimed at, and the event that was triggered.
pub struct OnEntity<'a, E> {
    pub entity: Entity,
    pub event: &'a E,
}

impl<'a, E> OnEntity<'a, E> {
    /// The event that was triggered.
    pub fn event(&self) -> (event: &'a E)
        ensures
            event == self.event,
    {
        self.event
    }
}

} // verus!
