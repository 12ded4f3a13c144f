//! What the host keeps beside the world for the guests' sake: the events
//! registered by name, the observers bound to them, and which loaded
//! library owns what, so that an unloaded library leaves nothing behind.
use crate::component::{valid_size_align, ComponentId, ComponentLayout, StorageType};
use crate::entity::Entity;
use crate::name::{is_valid_type_name, valid_type_name};
use crate::system::commands::Callback;
use crate::system::param::{dyn_views, fresh_params, queued, DynParam};
use crate::system::state::{SystemRun, SystemState, SystemStateView};
use crate::system::SystemError;
use crate::world::{RegisterError, World};
use vstd::prelude::*;

verus! {

/// The number of a loaded guest library.
#[derive(Clone, Copy, Debug, PartialEq, Eq, Structural)]
pub struct LibraryId {
    pub id: u64,
}

/// The number of a registered event type: its position in the order of
/// registration.
#[derive(Clone, Copy, Debug, PartialEq, Eq, Structural)]
pub struct EventId {
    pub index: usize,
}

/// The number of an observer. No two observers of one registry ever share
/// a number.
#[derive(Clone, Copy, Debug, PartialEq, Eq, Structural)]
pub struct ObserverId {
    pub id: u64,
}

/// What the registry knows of one event type.
pub struct EventInfo {
    pub name: Seq<char>,
    pub size: usize,
    pub align: usize,
}

/// What the registry knows of one observer.
pub struct ObserverInfo {
    pub id: ObserverId,
    /// The event the observer is bound to.
    pub event: EventId,
    /// The entity the observer watches; none for an observer of every
    /// trigger.
    pub target: Option<Entity>,
    /// The guest function that is the observer's body.
    pub callback: Callback,
    /// The library that was loading when the observer was added.
    pub library: Option<LibraryId>,
    /// The parameters of the observer's body.
    pub state: SystemStateView,
}

/// A resource that a library brought.
#[derive(Clone, Copy, Debug, PartialEq, Eq, Structural)]
pub struct OwnedResource {
    pub library: LibraryId,
    pub resource: ComponentId,
}

/// One observer that a trigger sets off.
#[derive(Clone, Copy, Debug, PartialEq, Eq, Structural)]
pub struct ObserverCall {
    pub observer: ObserverId,
    pub callback: Callback,
}

/// What a trigger sets off: the event, its payload copied byte for byte,
/// and the observers to call with it, in the order in which they were
/// added. Each of them is owed one call with the payload.
pub struct Dispatch {
    pub event: EventId,
    pub payload: Vec<u8>,
    pub observers: Vec<ObserverCall>,
}

/// What is left to undo when a library is unloaded: the observers that were
/// taken out of the registry, and the resources that the library brought.
pub struct Unloaded {
    pub observers: Vec<ObserverId>,
    pub resources: Vec<ComponentId>,
}

/// Why a step of an observer's run was turned down.
#[derive(Clone, Copy, Debug, PartialEq, Eq, Structural)]
pub enum ObserverError {
    /// No observer has this number.
    UnknownObserver,
    /// The observer's parameters turned the step down.
    System(SystemError),
}

/// The registry as mathematics.
pub struct RegistryView {
    pub events: Seq<EventInfo>,
    pub observers: Seq<ObserverInfo>,
    pub resources: Seq<OwnedResource>,
    /// The number that the next observer gets.
    pub next_observer: nat,
    /// The number that the next library gets.
    pub next_library: nat,
    /// The library that is loading now.
    pub current_library: Option<LibraryId>,
}

/// The observers among the first `bound` that a trigger of `event` aimed at
/// `target` sets off, in the order in which they were added.
pub open spec fn set_off_below(
    observers: Seq<ObserverInfo>,
    event: EventId,
    target: Option<Entity>,
    bound: nat,
) -> Seq<ObserverCall>
    decreases bound,
{
    if bound == 0 {
        Seq::empty()
    } else {
        let rest = set_off_below(observers, event, target, (bound - 1) as nat);
        let last = observers[bound - 1];
        if last.event == event && last.target == target {
            rest.push(ObserverCall { observer: last.id, callback: last.callback })
        } else {
            rest
        }
    }
}

/// The observers among the first `bound` that library `library` does not
/// own, in the order in which they were added.
pub open spec fn kept_below(observers: Seq<ObserverInfo>, library: LibraryId, bound: nat) -> Seq<
    ObserverInfo,
>
    decreases bound,
{
    if bound == 0 {
        Seq::empty()
    } else {
        let rest = kept_below(observers, library, (bound - 1) as nat);
        if observers[bound - 1].library == Some(library) {
            rest
        } else {
            rest.push(observers[bound - 1])
        }
    }
}

/// The numbers of the observers among the first `bound` that library
/// `library` owns, in the order in which they were added.
pub open spec fn owned_below(observers: Seq<ObserverInfo>, library: LibraryId, bound: nat) -> Seq<
    ObserverId,
>
    decreases bound,
{
    if bound == 0 {
        Seq::empty()
    } else {
        let rest = owned_below(observers, library, (bound - 1) as nat);
        if observers[bound - 1].library == Some(library) {
            rest.push(observers[bound - 1].id)
        } else {
            rest
        }
    }
}

/// The resources among the first `bound` that library `library` did not
/// bring.
pub open spec fn resources_kept_below(
    resources: Seq<OwnedResource>,
    library: LibraryId,
    bound: nat,
) -> Seq<OwnedResource>
    decreases bound,
{
    if bound == 0 {
        Seq::empty()
    } else {
        let rest = resources_kept_below(resources, library, (bound - 1) as nat);
        if resources[bound - 1].library == library {
            rest
        } else {
            rest.push(resources[bound - 1])
        }
    }
}

/// The resources among the first `bound` that library `library` brought.
pub open spec fn resources_owned_below(
    resources: Seq<OwnedResource>,
    library: LibraryId,
    bound: nat,
) -> Seq<ComponentId>
    decreases bound,
{
    if bound == 0 {
        Seq::empty()
    } else {
        let rest = resources_owned_below(resources, library, (bound - 1) as nat);
        if resources[bound - 1].library == library {
            rest.push(resources[bound - 1].resource)
        } else {
            rest
        }
    }
}

impl RegistryView {
    /// Whether position `i` holds the event of the given name.
    pub open spec fn names_event(self, i: int, name: Seq<char>) -> bool {
        0 <= i < self.events.len() && self.events[i].name == name
    }

    /// The id of the event registered under `name`.
    pub open spec fn event_id(self, name: Seq<char>) -> Option<EventId> {
        if exists|i: int| self.names_event(i, name) {
            Some(EventId { index: (choose|i: int| self.names_event(i, name)) as usize })
        } else {
            None
        }
    }

    /// Whether position `i` holds the observer of the given number.
    pub open spec fn holds_observer(self, i: int, id: ObserverId) -> bool {
        0 <= i < self.observers.len() && self.observers[i].id == id
    }

    /// The position of the observer of the given number.
    pub open spec fn observer_index(self, id: ObserverId) -> Option<int> {
        if exists|i: int| self.holds_observer(i, id) {
            Some(choose|i: int| self.holds_observer(i, id))
        } else {
            None
        }
    }

    /// What a registration of an event answers.
    pub open spec fn register_event_result(self, name: Seq<char>, size: usize, align: usize) -> Result<
        EventId,
        RegisterError,
    > {
        if !valid_type_name(name) {
            Err(RegisterError::InvalidName)
        } else if !valid_size_align(size as nat, align as nat) {
            Err(RegisterError::InvalidLayout)
        } else {
            match self.event_id(name) {
                Some(id) => if self.events[id.index as int].size == size
                    && self.events[id.index as int].align == align {
                    Ok(id)
                } else {
                    Err(RegisterError::LayoutMismatch)
                },
                None => if self.events.len() < usize::MAX {
                    Ok(EventId { index: self.events.len() as usize })
                } else {
                    Err(RegisterError::Full)
                },
            }
        }
    }

    /// The registry after the registration of an event: one event more
    /// where the name is new and the registration is in order, and the same
    /// registry otherwise.
    pub open spec fn register_event(self, name: Seq<char>, size: usize, align: usize) -> Self {
        if valid_type_name(name) && valid_size_align(size as nat, align as nat) && self.event_id(
            name,
        ) is None && self.events.len() < usize::MAX {
            RegistryView { events: self.events.push(EventInfo { name, size, align }), ..self }
        } else {
            self
        }
    }

    /// The observer that `observe` adds, where it adds one.
    pub open spec fn new_observer(
        self,
        event: EventId,
        target: Option<Entity>,
        state: SystemStateView,
        callback: Callback,
    ) -> ObserverInfo {
        ObserverInfo {
            id: ObserverId { id: self.next_observer as u64 },
            event,
            target,
            callback,
            library: self.current_library,
            state,
        }
    }

    /// Whether an observer can be bound to the event named `name`: the
    /// event is registered, and a number is left for the observer.
    pub open spec fn can_observe(self, name: Seq<char>) -> bool {
        self.event_id(name) is Some && self.next_observer < u64::MAX
    }

    /// The registry after an observer was bound to the event named `name`;
    /// the same registry where none can be.
    pub open spec fn observe(
        self,
        name: Seq<char>,
        target: Option<Entity>,
        state: SystemStateView,
        callback: Callback,
    ) -> Self {
        if self.can_observe(name) {
            RegistryView {
                observers: self.observers.push(
                    self.new_observer(self.event_id(name).unwrap(), target, state, callback),
                ),
                next_observer: self.next_observer + 1,
                ..self
            }
        } else {
            self
        }
    }

    /// Whether a trigger of the event named `name` with `payload` is in
    /// order: the event is registered, and the payload has its size.
    pub open spec fn can_trigger(self, name: Seq<char>, payload: Seq<u8>) -> bool {
        self.event_id(name) matches Some(id) && payload.len() == self.events[id.index as int].size
    }

    /// The observers that a trigger of `event` aimed at `target` sets off.
    pub open spec fn set_off(self, event: EventId, target: Option<Entity>) -> Seq<ObserverCall> {
        set_off_below(self.observers, event, target, self.observers.len())
    }

    /// The registry after library `library` was unloaded: its observers and
    /// resources are gone, everything else is as it was.
    pub open spec fn unload(self, library: LibraryId) -> Self {
        RegistryView {
            observers: kept_below(self.observers, library, self.observers.len()),
            resources: resources_kept_below(self.resources, library, self.resources.len()),
            current_library: if self.current_library == Some(library) {
                None
            } else {
                self.current_library
            },
            ..self
        }
    }

    /// The registry after the observer of number `id` was removed; the same
    /// registry where there is none.
    pub open spec fn remove_observer(self, id: ObserverId) -> Self {
        match self.observer_index(id) {
            Some(i) => RegistryView { observers: self.observers.remove(i), ..self },
            None => self,
        }
    }

    /// The registry with the state of the observer at position `i` changed.
    pub open spec fn with_state(self, i: int, state: SystemStateView) -> Self {
        RegistryView {
            observers: self.observers.update(i, ObserverInfo { state, ..self.observers[i] }),
            ..self
        }
    }

    /// The events are told apart by name, every observer is bound to a
    /// registered event, and the observers are told apart by number, each
    /// number below the next to be given.
    pub open spec fn wf(self) -> bool {
        &&& self.events.len() <= usize::MAX
        &&& forall|i: int, j: int|
            0 <= i < j < self.events.len() ==> (#[trigger] self.events[i]).name != (
            #[trigger] self.events[j]).name
        &&& forall|i: int|
            0 <= i < self.events.len() ==> valid_type_name((#[trigger] self.events[i]).name)
                && valid_size_align(self.events[i].size as nat, self.events[i].align as nat)
        &&& forall|i: int|
            0 <= i < self.observers.len() ==> (#[trigger] self.observers[i]).event.index
                < self.events.len() && self.observers[i].id.id < self.next_observer
        &&& forall|i: int, j: int|
            0 <= i < j < self.observers.len() ==> (#[trigger] self.observers[i]).id != (
            #[trigger] self.observers[j]).id
        &&& self.next_observer <= u64::MAX
        &&& self.next_library <= u64::MAX
    }

    /// In a well-formed registry a name is found at one position only.
    pub proof fn lemma_event_id(self, i: int, name: Seq<char>)
        requires
            self.wf(),
            self.names_event(i, name),
        ensures
            self.event_id(name) == Some(EventId { index: i as usize }),
    {
        let j = choose|j: int| self.names_event(j, name);
        if i < j {
            assert(self.events[i].name == self.events[j].name);
        } else if j < i {
            assert(self.events[j].name == self.events[i].name);
        }
    }

    /// In a well-formed registry an observer's number is found at one
    /// position only.
    pub proof fn lemma_observer_index(self, i: int, id: ObserverId)
        requires
            self.wf(),
            self.holds_observer(i, id),
        ensures
            self.observer_index(id) == Some(i),
    {
        let j = choose|j: int| self.holds_observer(j, id);
        if i < j {
            assert(self.observers[i].id == self.observers[j].id);
        } else if j < i {
            assert(self.observers[j].id == self.observers[i].id);
        }
    }
}

/// What is in `kept_below`: the observers before the bound that the library
/// does not own, each at most as far back as it was.
pub proof fn lemma_kept_below(observers: Seq<ObserverInfo>, library: LibraryId, bound: nat)
    requires
        bound <= observers.len(),
    ensures
        kept_below(observers, library, bound).len() <= bound,
        forall|k: int|
            0 <= k < kept_below(observers, library, bound).len() ==> {
                let o = #[trigger] kept_below(observers, library, bound)[k];
                o.library != Some(library) && exists|i: int| k <= i < bound && observers[i] == o
            },
        forall|i: int|
            0 <= i < bound && (#[trigger] observers[i]).library != Some(library) ==> kept_below(
                observers,
                library,
                bound,
            ).contains(observers[i]),
    decreases bound,
{
    if bound > 0 {
        let out = kept_below(observers, library, bound);
        let rest = kept_below(observers, library, (bound - 1) as nat);
        lemma_kept_below(observers, library, (bound - 1) as nat);
        assert forall|k: int| 0 <= k < out.len() implies {
            let o = #[trigger] out[k];
            o.library != Some(library) && exists|i: int| k <= i < bound && observers[i] == o
        } by {
            if k < rest.len() {
                assert(out[k] == rest[k]);
                let i = choose|i: int| k <= i < bound - 1 && observers[i] == rest[k];
                assert(k <= i < bound && observers[i] == out[k]);
            } else {
                assert(observers[bound - 1] == out[k]);
            }
        }
        assert forall|i: int|
            0 <= i < bound && (#[trigger] observers[i]).library != Some(library) implies out.contains(
            observers[i],
        ) by {
            if i < bound - 1 {
                assert(rest.contains(observers[i]));
                let k = choose|k: int| 0 <= k < rest.len() && rest[k] == observers[i];
                assert(out[k] == observers[i]);
            } else {
                assert(out[out.len() - 1] == observers[i]);
            }
        }
    }
}

/// Whether `call` is the call owed to an observer at a position from
/// `from` up to `bound` that is bound to `event` and aimed at `target`.
pub open spec fn calls_one_of(
    observers: Seq<ObserverInfo>,
    call: ObserverCall,
    event: EventId,
    target: Option<Entity>,
    from: int,
    bound: int,
) -> bool {
    exists|i: int|
        from <= i < bound && (#[trigger] observers[i]).event == event && observers[i].target
            == target && call == (ObserverCall {
            observer: observers[i].id,
            callback: observers[i].callback,
        })
}

/// What is in `set_off_below`: one call for each observer before the bound
/// that is bound to the event and aimed at the target, in the order in
/// which the observers were added.
pub proof fn lemma_set_off_below(
    observers: Seq<ObserverInfo>,
    event: EventId,
    target: Option<Entity>,
    bound: nat,
)
    requires
        bound <= observers.len(),
    ensures
        set_off_below(observers, event, target, bound).len() <= bound,
        forall|k: int|
            0 <= k < set_off_below(observers, event, target, bound).len() ==> calls_one_of(
                observers,
                #[trigger] set_off_below(observers, event, target, bound)[k],
                event,
                target,
                k,
                bound as int,
            ),
        forall|i: int|
            0 <= i < bound && (#[trigger] observers[i]).event == event && observers[i].target
                == target ==> set_off_below(observers, event, target, bound).contains(
                ObserverCall { observer: observers[i].id, callback: observers[i].callback },
            ),
    decreases bound,
{
    if bound > 0 {
        let out = set_off_below(observers, event, target, bound);
        let rest = set_off_below(observers, event, target, (bound - 1) as nat);
        lemma_set_off_below(observers, event, target, (bound - 1) as nat);
        assert forall|k: int| 0 <= k < out.len() implies calls_one_of(
            observers,
            #[trigger] out[k],
            event,
            target,
            k,
            bound as int,
        ) by {
            if k < rest.len() {
                assert(out[k] == rest[k]);
                assert(calls_one_of(observers, rest[k], event, target, k, bound - 1));
                let i = choose|i: int|
                    k <= i < bound - 1 && (#[trigger] observers[i]).event == event
                        && observers[i].target == target && rest[k] == (ObserverCall {
                        observer: observers[i].id,
                        callback: observers[i].callback,
                    });
                assert(k <= i < bound && observers[i].event == event);
            } else {
                let i = bound - 1;
                assert(k <= i < bound && observers[i].event == event);
            }
        }
        assert forall|i: int|
            0 <= i < bound && (#[trigger] observers[i]).event == event && observers[i].target
                == target implies out.contains(
            ObserverCall { observer: observers[i].id, callback: observers[i].callback },
        ) by {
            let call = ObserverCall { observer: observers[i].id, callback: observers[i].callback };
            if i < bound - 1 {
                assert(rest.contains(call));
                let k = choose|k: int| 0 <= k < rest.len() && rest[k] == call;
                assert(out[k] == call);
            } else {
                assert(out[out.len() - 1] == call);
            }
        }
    }
}

/// Unloading a library leaves a well-formed registry well-formed, and none
/// of the library's observers in it.
pub proof fn law_unload_leaves_nothing_behind(registry: RegistryView, library: LibraryId)
    requires
        registry.wf(),
    ensures
        registry.unload(library).wf(),
        forall|k: int|
            0 <= k < registry.unload(library).observers.len() ==> (
            #[trigger] registry.unload(library).observers[k]).library != Some(library),
        forall|i: int|
            0 <= i < registry.observers.len() && (#[trigger] registry.observers[i]).library != Some(
                library,
            ) ==> registry.unload(library).observers.contains(registry.observers[i]),
{
    lemma_kept_ids(registry, library, registry.observers.len());
    lemma_kept_below(registry.observers, library, registry.observers.len());
}

/// The observers kept among the first `bound` are observers of the
/// registry, told apart by number as these are.
proof fn lemma_kept_ids(registry: RegistryView, library: LibraryId, bound: nat)
    requires
        registry.wf(),
        bound <= registry.observers.len(),
    ensures
        forall|k: int|
            0 <= k < kept_below(registry.observers, library, bound).len() ==> (#[trigger] kept_below(
                registry.observers,
                library,
                bound,
            )[k]).event.index < registry.events.len() && kept_below(
                registry.observers,
                library,
                bound,
            )[k].id.id < registry.next_observer,
        forall|k: int, l: int|
            0 <= k < l < kept_below(registry.observers, library, bound).len() ==> (
            #[trigger] kept_below(registry.observers, library, bound)[k]).id != (#[trigger] kept_below(
                registry.observers,
                library,
                bound,
            )[l]).id,
    decreases bound,
{
    if bound > 0 {
        let out = kept_below(registry.observers, library, bound);
        let rest = kept_below(registry.observers, library, (bound - 1) as nat);
        lemma_kept_ids(registry, library, (bound - 1) as nat);
        lemma_kept_below(registry.observers, library, (bound - 1) as nat);
        assert forall|k: int, l: int| 0 <= k < l < out.len() implies (#[trigger] out[k]).id != (
        #[trigger] out[l]).id by {
            if l < rest.len() {
                assert(out[k] == rest[k]);
                assert(out[l] == rest[l]);
            } else {
                assert(out[k] == rest[k]);
                let i = choose|i: int| k <= i < bound - 1 && registry.observers[i] == rest[k];
                assert(registry.observers[i].id != registry.observers[bound - 1].id);
            }
        }
        assert forall|k: int| 0 <= k < out.len() implies (#[trigger] out[k]).event.index
            < registry.events.len() && out[k].id.id < registry.next_observer by {
            if k < rest.len() {
                assert(out[k] == rest[k]);
            } else {
                assert(out[k] == registry.observers[bound - 1]);
            }
        }
    }
}

/// An event that was registered, then observed, then triggered reaches
/// the observer once: the trigger is in order, the observer's call closes
/// the list of calls, and no other call of the list is the observer's.
pub proof fn law_trigger_reaches_observer_once(
    registry: RegistryView,
    name: Seq<char>,
    size: usize,
    align: usize,
    state: SystemStateView,
    callback: Callback,
    payload: Seq<u8>,
)
    requires
        registry.wf(),
        registry.register_event_result(name, size, align) is Ok,
        registry.next_observer < u64::MAX,
        payload.len() == size,
    ensures
        ({
            let event = registry.register_event_result(name, size, align)->Ok_0;
            let registered = registry.register_event(name, size, align);
            let observed = registered.observe(name, None, state, callback);
            let observer = ObserverId { id: registry.next_observer as u64 };
            let calls = observed.set_off(event, None);
            &&& registered.can_observe(name)
            &&& observed.wf()
            &&& observed.event_id(name) == Some(event)
            &&& observed.can_trigger(name, payload)
            &&& calls.len() > 0
            &&& calls.last() == (ObserverCall { observer, callback })
            &&& forall|k: int| 0 <= k < calls.len() - 1 ==> (#[trigger] calls[k]).observer != observer
        }),
{
    let event = registry.register_event_result(name, size, align)->Ok_0;
    let registered = registry.register_event(name, size, align);
    lemma_register_event(registry, name, size, align);
    let observed = registered.observe(name, None, state, callback);
    lemma_observe(registered, name, None, state, callback);
    let at = choose|at: int| registered.names_event(at, name);
    assert(registered.names_event(at, name));
    assert(observed.names_event(at, name));
    let observer = ObserverId { id: registry.next_observer as u64 };
    let calls = observed.set_off(event, None);
    let n = registered.observers.len();
    assert(observed.observers[n as int].event == event);
    let rest = set_off_below(observed.observers, event, None, n);
    assert(calls == rest.push(ObserverCall { observer, callback }));
    lemma_set_off_below(observed.observers, event, None, n);
    assert forall|k: int| 0 <= k < calls.len() - 1 implies (#[trigger] calls[k]).observer
        != observer by {
        assert(calls[k] == rest[k]);
        assert(calls_one_of(observed.observers, rest[k], event, None, k, n as int));
        let i = choose|i: int|
            k <= i < n && (#[trigger] observed.observers[i]).event == event
                && observed.observers[i].target == None::<Entity> && rest[k] == (ObserverCall {
                observer: observed.observers[i].id,
                callback: observed.observers[i].callback,
            });
        assert(observed.observers[i] == registered.observers[i]);
    }
}

/// The registration of an event leaves a well-formed registry well-formed,
/// and the event is found under the id that the registration answers with.
pub proof fn lemma_register_event(registry: RegistryView, name: Seq<char>, size: usize, align: usize)
    requires
        registry.wf(),
    ensures
        registry.register_event(name, size, align).wf(),
        registry.register_event_result(name, size, align) matches Ok(event) ==> {
            &&& registry.register_event(name, size, align).event_id(name) == Some(event)
            &&& event.index < registry.register_event(name, size, align).events.len()
            &&& registry.register_event(name, size, align).events[event.index as int].size == size
        },
{
    let after = registry.register_event(name, size, align);
    if valid_type_name(name) && valid_size_align(size as nat, align as nat) {
        if registry.event_id(name) is None && registry.events.len() < usize::MAX {
            assert forall|i: int, j: int| 0 <= i < j < after.events.len() implies (
            #[trigger] after.events[i]).name != (#[trigger] after.events[j]).name by {
                if j == registry.events.len() {
                    if after.events[i].name == name {
                        assert(registry.names_event(i, name));
                    }
                } else {
                    assert(after.events[i] == registry.events[i]);
                    assert(after.events[j] == registry.events[j]);
                }
            }
            assert(after.names_event(registry.events.len() as int, name));
            after.lemma_event_id(registry.events.len() as int, name);
        } else if registry.event_id(name) is Some {
            let i = choose|i: int| registry.names_event(i, name);
            assert(registry.names_event(i, name));
        }
    }
}

/// Binding an observer leaves a well-formed registry well-formed.
pub proof fn lemma_observe(
    registry: RegistryView,
    name: Seq<char>,
    target: Option<Entity>,
    state: SystemStateView,
    callback: Callback,
)
    requires
        registry.wf(),
    ensures
        registry.observe(name, target, state, callback).wf(),
        registry.observe(name, target, state, callback).events == registry.events,
{
    let after = registry.observe(name, target, state, callback);
    if registry.can_observe(name) {
        let i = choose|i: int| registry.names_event(i, name);
        assert(registry.names_event(i, name));
        assert forall|k: int, l: int| 0 <= k < l < after.observers.len() implies (
        #[trigger] after.observers[k]).id != (#[trigger] after.observers[l]).id by {
            assert(after.observers[k] == registry.observers[k]);
            if l < registry.observers.len() {
                assert(after.observers[l] == registry.observers[l]);
            }
        }
        assert forall|k: int| 0 <= k < after.observers.len() implies (
        #[trigger] after.observers[k]).event.index < after.events.len() && after.observers[k].id.id
            < after.next_observer by {
            if k < registry.observers.len() {
                assert(after.observers[k] == registry.observers[k]);
            }
        }
    }
}

/// The calls that the first `low` observers are owed open the calls that
/// the first `high` are owed.
proof fn lemma_set_off_prefix(
    observers: Seq<ObserverInfo>,
    event: EventId,
    target: Option<Entity>,
    low: nat,
    high: nat,
)
    requires
        low <= high <= observers.len(),
    ensures
        set_off_below(observers, event, target, low).len() <= set_off_below(
            observers,
            event,
            target,
            high,
        ).len(),
        set_off_below(observers, event, target, high).subrange(
            0,
            set_off_below(observers, event, target, low).len() as int,
        ) == set_off_below(observers, event, target, low),
    decreases high - low,
{
    let short = set_off_below(observers, event, target, low);
    if low < high {
        lemma_set_off_prefix(observers, event, target, low, (high - 1) as nat);
        let shorter = set_off_below(observers, event, target, (high - 1) as nat);
        let longer = set_off_below(observers, event, target, high);
        assert(longer.subrange(0, short.len() as int) =~= shorter.subrange(0, short.len() as int));
    } else {
        assert(short.subrange(0, short.len() as int) =~= short);
    }
}

/// Observers of one event fire in the order in which they were added: of
/// two observers that a trigger sets off, the call of the one added first
/// stands before the call of the other.
pub proof fn law_observers_fire_in_order(
    registry: RegistryView,
    event: EventId,
    target: Option<Entity>,
    i: int,
    j: int,
)
    requires
        0 <= i < j < registry.observers.len(),
        registry.observers[i].event == event && registry.observers[i].target == target,
        registry.observers[j].event == event && registry.observers[j].target == target,
    ensures
        ({
            let calls = registry.set_off(event, target);
            let first = set_off_below(registry.observers, event, target, i as nat).len() as int;
            let second = set_off_below(registry.observers, event, target, j as nat).len() as int;
            &&& first < second < calls.len()
            &&& calls[first] == (ObserverCall {
                observer: registry.observers[i].id,
                callback: registry.observers[i].callback,
            })
            &&& calls[second] == (ObserverCall {
                observer: registry.observers[j].id,
                callback: registry.observers[j].callback,
            })
        }),
{
    let observers = registry.observers;
    let n = observers.len();
    let calls = registry.set_off(event, target);
    let first = set_off_below(observers, event, target, i as nat).len() as int;
    let second = set_off_below(observers, event, target, j as nat).len() as int;
    let upto_i = set_off_below(observers, event, target, (i + 1) as nat);
    let upto_j = set_off_below(observers, event, target, (j + 1) as nat);
    assert(upto_i.len() == first + 1);
    assert(upto_j.len() == second + 1);
    lemma_set_off_prefix(observers, event, target, (i + 1) as nat, j as nat);
    lemma_set_off_prefix(observers, event, target, (i + 1) as nat, n);
    lemma_set_off_prefix(observers, event, target, (j + 1) as nat, n);
    assert(calls.subrange(0, upto_i.len() as int)[first] == upto_i[first]);
    assert(calls.subrange(0, upto_j.len() as int)[second] == upto_j[second]);
}

/// An observer that was removed is set off by no trigger any more.
pub proof fn law_removed_observer_stays_quiet(
    registry: RegistryView,
    id: ObserverId,
    event: EventId,
    target: Option<Entity>,
)
    requires
        registry.wf(),
    ensures
        forall|k: int|
            0 <= k < registry.remove_observer(id).set_off(event, target).len() ==> (
            #[trigger] registry.remove_observer(id).set_off(event, target)[k]).observer != id,
{
    let after = registry.remove_observer(id);
    let calls = after.set_off(event, target);
    lemma_set_off_below(after.observers, event, target, after.observers.len());
    assert forall|k: int| 0 <= k < calls.len() implies (#[trigger] calls[k]).observer != id by {
        assert(calls_one_of(after.observers, calls[k], event, target, k, after.observers.len() as int));
        let i = choose|i: int|
            k <= i < after.observers.len() && (#[trigger] after.observers[i]).event == event
                && after.observers[i].target == target && calls[k] == (ObserverCall {
                observer: after.observers[i].id,
                callback: after.observers[i].callback,
            });
        match registry.observer_index(id) {
            Some(at) => {
                let at0 = choose|at0: int| registry.holds_observer(at0, id);
                assert(registry.holds_observer(at0, id));
                let i0 = if i < at { i } else { i + 1 };
                assert(after.observers[i] == registry.observers[i0]);
                if registry.observers[i0].id == id {
                    if i0 < at {
                        assert(registry.observers[i0].id != registry.observers[at].id);
                    } else {
                        assert(registry.observers[at].id != registry.observers[i0].id);
                    }
                }
            },
            None => {
                if after.observers[i].id == id {
                    assert(registry.holds_observer(i, id));
                }
            },
        }
    }
}

struct EventEntry {
    name: String,
    size: usize,
    align: usize,
}

impl EventEntry {
    spec fn info(self) -> EventInfo {
        EventInfo { name: self.name@, size: self.size, align: self.align }
    }
}

struct ObserverEntry {
    id: ObserverId,
    event: EventId,
    target: Option<Entity>,
    callback: Callback,
    library: Option<LibraryId>,
    state: SystemState,
}

impl ObserverEntry {
    spec fn info(self) -> ObserverInfo {
        ObserverInfo {
            id: self.id,
            event: self.event,
            target: self.target,
            callback: self.callback,
            library: self.library,
            state: self.state@,
        }
    }
}

spec fn observer_infos(entries: Seq<ObserverEntry>) -> Seq<ObserverInfo> {
    Seq::new(entries.len(), |i: int| entries[i].info())
}

fn same_target(a: Option<Entity>, b: Option<Entity>) -> (r: bool)
    ensures
        r == (a == b),
{
    match (a, b) {
        (Some(x), Some(y)) => x.bits == y.bits,
        (None, None) => true,
        _ => false,
    }
}

fn owned_by(owner: Option<LibraryId>, library: LibraryId) -> (r: bool)
    ensures
        r == (owner == Some(library)),
{
    match owner {
        Some(l) => l.id == library.id,
        None => false,
    }
}

/// The events, observers and libraries of one host.
pub struct SharedRegistry {
    events: Vec<EventEntry>,
    observers: Vec<ObserverEntry>,
    resources: Vec<OwnedResource>,
    next_observer: u64,
    next_library: u64,
    current_library: Option<LibraryId>,
}

impl SharedRegistry {
    /// The registry as mathematics.
    pub closed spec fn view(&self) -> RegistryView {
        RegistryView {
            events: Seq::new(self.events.len() as nat, |i: int| self.events[i].info()),
            observers: observer_infos(self.observers@),
            resources: self.resources@,
            next_observer: self.next_observer as nat,
            next_library: self.next_library as nat,
            current_library: self.current_library,
        }
    }

    /// The registry is well-formed.
    pub open spec fn wf(&self) -> bool {
        self@.wf()
    }

    /// A registry without events, observers or libraries.
    pub fn new() -> (registry: Self)
        ensures
            registry.wf(),
            registry@.events.len() == 0,
            registry@.observers.len() == 0,
            registry@.resources.len() == 0,
            registry@.next_observer == 0,
            registry@.next_library == 0,
            registry@.current_library is None,
    {
        SharedRegistry {
            events: Vec::new(),
            observers: Vec::new(),
            resources: Vec::new(),
            next_observer: 0,
            next_library: 0,
            current_library: None,
        }
    }

    fn find_event(&self, name: &str) -> (r: Option<usize>)
        requires
            self.wf(),
        ensures
            match r {
                Some(i) => self@.event_id(name@) == Some(EventId { index: i }) && i
                    < self@.events.len(),
                None => self@.event_id(name@) is None,
            },
    {
        let key = name.to_owned();
        let mut i: usize = 0;
        while i < self.events.len()
            invariant
                i <= self.events.len(),
                self.wf(),
                key@ == name@,
                forall|j: int| 0 <= j < i ==> !self@.names_event(j, name@),
            decreases self.events.len() - i,
        {
            if self.events[i].name == key {
                proof {
                    assert(self@.names_event(i as int, name@));
                    self@.lemma_event_id(i as int, name@);
                }
                return Some(i);
            }
            i += 1;
        }
        None
    }

    fn find_observer(&self, id: ObserverId) -> (r: Option<usize>)
        requires
            self.wf(),
        ensures
            match r {
                Some(i) => self@.observer_index(id) == Some(i as int) && i < self@.observers.len(),
                None => self@.observer_index(id) is None,
            },
    {
        let mut i: usize = 0;
        while i < self.observers.len()
            invariant
                i <= self.observers.len(),
                self.wf(),
                forall|j: int| 0 <= j < i ==> !self@.holds_observer(j, id),
            decreases self.observers.len() - i,
        {
            if self.observers[i].id.id == id.id {
                proof {
                    assert(self@.holds_observer(i as int, id));
                    self@.lemma_observer_index(i as int, id);
                }
                return Some(i);
            }
            i += 1;
        }
        None
    }

    /// Registers an event type under `name`, with the size and alignment of
    /// its payload, and answers with its id. A name that is registered
    /// already keeps its id: the call answers with it where the layout is
    /// the one declared before, and fails where it is not. A failed call
    /// changes nothing.
    pub fn register_event(&mut self, name: &str, size: usize, align: usize) -> (r: Result<
        EventId,
        RegisterError,
    >)
        requires
            old(self).wf(),
        ensures
            final(self).wf(),
            r == old(self)@.register_event_result(name@, size, align),
            final(self)@ == old(self)@.register_event(name@, size, align),
    {
        if !is_valid_type_name(name) {
            return Err(RegisterError::InvalidName);
        }
        if !ComponentLayout::new(size, align, StorageType::Table).is_valid() {
            return Err(RegisterError::InvalidLayout);
        }
        match self.find_event(name) {
            Some(i) => {
                if self.events[i].size == size && self.events[i].align == align {
                    Ok(EventId { index: i })
                } else {
                    Err(RegisterError::LayoutMismatch)
                }
            },
            None => {
                let index = self.events.len();
                if index == usize::MAX {
                    return Err(RegisterError::Full);
                }
                self.events.push(EventEntry { name: name.to_owned(), size, align });
                proof {
                    let before = old(self)@;
                    let after = final(self)@;
                    assert(after.events =~= before.events.push(
                        EventInfo { name: name@, size, align },
                    ));
                    assert(after.observers =~= before.observers);
                    assert forall|i: int, j: int| 0 <= i < j < after.events.len() implies (
                    #[trigger] after.events[i]).name != (#[trigger] after.events[j]).name by {
                        if j == before.events.len() {
                            if after.events[i].name == name@ {
                                assert(before.names_event(i, name@));
                            }
                        } else {
                            assert(after.events[i] == before.events[i]);
                            assert(after.events[j] == before.events[j]);
                        }
                    }
                }
                Ok(EventId { index })
            },
        }
    }

    /// The id of the event registered under `name`; `None` where none was.
    pub fn get_event_id(&self, name: &str) -> (r: Option<EventId>)
        requires
            self.wf(),
        ensures
            r == self@.event_id(name@),
    {
        match self.find_event(name) {
            Some(i) => Some(EventId { index: i }),
            None => None,
        }
    }

    /// Gives the next library its number; `None` when the numbers have run
    /// out.
    pub fn new_library_id(&mut self) -> (r: Option<LibraryId>)
        requires
            old(self).wf(),
        ensures
            final(self).wf(),
            match r {
                Some(library) => {
                    &&& old(self)@.next_library < u64::MAX
                    &&& library.id == old(self)@.next_library
                    &&& final(self)@ == (RegistryView {
                        next_library: old(self)@.next_library + 1,
                        ..old(self)@
                    })
                },
                None => old(self)@.next_library == u64::MAX && final(self)@ == old(self)@,
            },
    {
        if self.next_library < u64::MAX {
            let id = self.next_library;
            self.next_library = id + 1;
            Some(LibraryId { id })
        } else {
            None
        }
    }

    /// Says which library is loading now, if any. What is added to the
    /// registry from now on belongs to it.
    pub fn set_current_library(&mut self, library: Option<LibraryId>)
        requires
            old(self).wf(),
        ensures
            final(self).wf(),
            final(self)@ == (RegistryView { current_library: library, ..old(self)@ }),
    {
        self.current_library = library;
    }

    /// The library that is loading now.
    pub fn current_library(&self) -> (library: Option<LibraryId>)
        ensures
            library == self@.current_library,
    {
        self.current_library
    }

    /// Notes that the library loading now brought resource `resource`.
    /// Nothing is noted while no library is loading.
    pub fn register_resource(&mut self, resource: ComponentId)
        requires
            old(self).wf(),
        ensures
            final(self).wf(),
            final(self)@ == (match old(self)@.current_library {
                Some(library) => RegistryView {
                    resources: old(self)@.resources.push(OwnedResource { library, resource }),
                    ..old(self)@
                },
                None => old(self)@,
            }),
    {
        match self.current_library {
            Some(library) => {
                self.resources.push(OwnedResource { library, resource });
            },
            None => {},
        }
    }

    fn observe(
        &mut self,
        event_name: &str,
        target: Option<Entity>,
        state: SystemState,
        callback: Callback,
    ) -> (r: Option<ObserverId>)
        requires
            old(self).wf(),
        ensures
            final(self).wf(),
            r is Some <==> old(self)@.can_observe(event_name@),
            r matches Some(id) ==> id.id == old(self)@.next_observer,
            final(self)@ == old(self)@.observe(event_name@, target, state@, callback),
    {
        let index = match self.find_event(event_name) {
            Some(index) => index,
            None => {
                return None;
            },
        };
        if self.next_observer == u64::MAX {
            return None;
        }
        let id = ObserverId { id: self.next_observer };
        self.observers.push(
            ObserverEntry {
                id,
                event: EventId { index },
                target,
                callback,
                library: self.current_library,
                state,
            },
        );
        self.next_observer = self.next_observer + 1;
        proof {
            let before = old(self)@;
            let after = final(self)@;
            assert(after.observers =~= before.observers.push(
                before.new_observer(EventId { index }, target, state@, callback),
            ));
            assert(after.events =~= before.events);
            assert forall|i: int, j: int| 0 <= i < j < after.observers.len() implies (
            #[trigger] after.observers[i]).id != (#[trigger] after.observers[j]).id by {
                assert(after.observers[i] == before.observers[i]);
                if j < before.observers.len() {
                    assert(after.observers[j] == before.observers[j]);
                }
            }
            assert forall|i: int| 0 <= i < after.observers.len() implies (
            #[trigger] after.observers[i]).event.index < after.events.len()
                && after.observers[i].id.id < after.next_observer by {
                if i < before.observers.len() {
                    assert(after.observers[i] == before.observers[i]);
                }
            }
        }
        Some(id)
    }

    /// Binds an observer to the event named `event_name`: from now on
    /// every trigger of that name that is aimed at no entity sets it off.
    /// The observer belongs to the library that is loading now. `None`, and
    /// no change, where no event of that name is registered; the system
    /// state is spent either way.
    pub fn add_observer(&mut self, event_name: &str, state: SystemState, callback: Callback) -> (r:
        Option<ObserverId>)
        requires
            old(self).wf(),
        ensures
            final(self).wf(),
            r is Some <==> old(self)@.can_observe(event_name@),
            r matches Some(id) ==> id.id == old(self)@.next_observer,
            final(self)@ == old(self)@.observe(event_name@, None, state@, callback),
    {
        self.observe(event_name, None, state, callback)
    }

    /// Binds an observer to the event named `event_name` on `entity`: from
    /// now on every trigger of that name that is aimed at `entity` sets it
    /// off, and no other. `None`, and no change, where no event of that
    /// name is registered; the system state is spent either way.
    pub fn add_entity_observer(
        &mut self,
        entity: Entity,
        event_name: &str,
        state: SystemState,
        callback: Callback,
    ) -> (r: Option<ObserverId>)
        requires
            old(self).wf(),
        ensures
            final(self).wf(),
            r is Some <==> old(self)@.can_observe(event_name@),
            r matches Some(id) ==> id.id == old(self)@.next_observer,
            final(self)@ == old(self)@.observe(event_name@, Some(entity), state@, callback),
    {
        self.observe(event_name, Some(entity), state, callback)
    }

    fn dispatch(&self, event_name: &str, payload: &[u8], target: Option<Entity>) -> (r: Option<
        Dispatch,
    >)
        requires
            self.wf(),
        ensures
            r is Some <==> self@.can_trigger(event_name@, payload@),
            r matches Some(dispatch) ==> {
                &&& Some(dispatch.event) == self@.event_id(event_name@)
                &&& dispatch.payload@ == payload@
                &&& dispatch.observers@ == self@.set_off(dispatch.event, target)
            },
    {
        let index = match self.find_event(event_name) {
            Some(index) => index,
            None => {
                return None;
            },
        };
        if payload.len() != self.events[index].size {
            return None;
        }
        let event = EventId { index };
        let mut copy: Vec<u8> = Vec::new();
        let mut k: usize = 0;
        while k < payload.len()
            invariant
                k <= payload.len(),
                copy@ == payload@.take(k as int),
            decreases payload.len() - k,
        {
            copy.push(payload[k]);
            assert(payload@.take(k + 1) =~= payload@.take(k as int).push(payload@[k as int]));
            k += 1;
        }
        assert(payload@.take(payload.len() as int) =~= payload@);
        let mut calls: Vec<ObserverCall> = Vec::new();
        let mut i: usize = 0;
        while i < self.observers.len()
            invariant
                i <= self.observers.len(),
                calls@ == set_off_below(self@.observers, event, target, i as nat),
            decreases self.observers.len() - i,
        {
            let entry = &self.observers[i];
            assert(self@.observers[i as int] == entry.info());
            if entry.event.index == event.index && same_target(entry.target, target) {
                calls.push(ObserverCall { observer: entry.id, callback: entry.callback });
            }
            i += 1;
        }
        Some(Dispatch { event, payload: copy, observers: calls })
    }

    /// Triggers the event named `event_name`, aimed at no entity. The
    /// payload is copied byte for byte; the answer names the observers to
    /// call with the copy, each once, in the order in which they were
    /// added. `None` where no event of that name is registered or the
    /// payload does not have the event's size.
    pub fn trigger(&self, event_name: &str, payload: &[u8]) -> (r: Option<Dispatch>)
        requires
            self.wf(),
        ensures
            r is Some <==> self@.can_trigger(event_name@, payload@),
            r matches Some(dispatch) ==> {
                &&& Some(dispatch.event) == self@.event_id(event_name@)
                &&& dispatch.payload@ == payload@
                &&& dispatch.observers@ == self@.set_off(dispatch.event, None)
            },
    {
        self.dispatch(event_name, payload, None)
    }

    /// Triggers the event named `event_name`, aimed at `entity`: only the
    /// observers bound to the event on that entity are set off.
    pub fn trigger_targets(&self, event_name: &str, payload: &[u8], entity: Entity) -> (r: Option<
        Dispatch,
    >)
        requires
            self.wf(),
        ensures
            r is Some <==> self@.can_trigger(event_name@, payload@),
            r matches Some(dispatch) ==> {
                &&& Some(dispatch.event) == self@.event_id(event_name@)
                &&& dispatch.payload@ == payload@
                &&& dispatch.observers@ == self@.set_off(dispatch.event, Some(entity))
            },
    {
        self.dispatch(event_name, payload, Some(entity))
    }

    /// Starts a run of the observer of number `id`: fetches its parameters
    /// and answers with the call that the host owes its body.
    pub fn begin_observer(&mut self, id: ObserverId, world: &World) -> (r: Result<
        SystemRun,
        ObserverError,
    >)
        requires
            old(self).wf(),
        ensures
            final(self).wf(),
            match old(self)@.observer_index(id) {
                None => r == Err::<SystemRun, ObserverError>(ObserverError::UnknownObserver)
                    && final(self)@ == old(self)@,
                Some(i) => match r {
                    Ok(run) => {
                        &&& old(self)@.observers[i].state.check_get(world@) is Ok
                        &&& run.callback == old(self)@.observers[i].callback
                        &&& dyn_views(run.params@) == fresh_params(
                            old(self)@.observers[i].state.params,
                        )
                        &&& final(self)@ == old(self)@.with_state(
                            i,
                            SystemStateView { fetched: true, ..old(self)@.observers[i].state },
                        )
                    },
                    Err(e) => {
                        &&& old(self)@.observers[i].state.check_get(world@) matches Err(inner)
                        &&& e == ObserverError::System(inner)
                        &&& final(self)@ == old(self)@
                    },
                },
            },
    {
        let i = match self.find_observer(id) {
            Some(i) => i,
            None => {
                return Err(ObserverError::UnknownObserver);
            },
        };
        let callback = self.observers[i].callback;
        assert(old(self)@.observers[i as int] == old(self).observers[i as int].info());
        let fetched = self.observers[i].state.get(world);
        proof {
            let before = old(self)@;
            let after = final(self)@;
            assert(after.events =~= before.events);
            match fetched {
                Ok(_) => {
                    let expected = before.with_state(
                        i as int,
                        SystemStateView { fetched: true, ..before.observers[i as int].state },
                    );
                    assert(after.observers =~= expected.observers);
                    assert forall|k: int, l: int| 0 <= k < l < after.observers.len() implies (
                    #[trigger] after.observers[k]).id != (#[trigger] after.observers[l]).id by {
                        assert(after.observers[k].id == before.observers[k].id);
                        assert(after.observers[l].id == before.observers[l].id);
                    }
                    assert forall|k: int| 0 <= k < after.observers.len() implies (
                    #[trigger] after.observers[k]).event.index < after.events.len()
                        && after.observers[k].id.id < after.next_observer by {
                        assert(after.observers[k].id == before.observers[k].id);
                        assert(after.observers[k].event == before.observers[k].event);
                    }
                },
                Err(_) => {
                    assert(after.observers =~= before.observers);
                },
            }
        }
        match fetched {
            Ok(params) => Ok(SystemRun { callback, params }),
            Err(e) => Err(ObserverError::System(e)),
        }
    }

    /// Ends a run of the observer of number `id` after its body returned:
    /// takes the parameters back and answers with the commands to run now,
    /// oldest first.
    pub fn finish_observer(&mut self, id: ObserverId, params: Vec<DynParam>) -> (r: Result<
        Vec<Callback>,
        ObserverError,
    >)
        requires
            old(self).wf(),
        ensures
            final(self).wf(),
            match old(self)@.observer_index(id) {
                None => r == Err::<Vec<Callback>, ObserverError>(ObserverError::UnknownObserver)
                    && final(self)@ == old(self)@,
                Some(i) => match r {
                    Ok(commands) => {
                        &&& old(self)@.observers[i].state.check_release(dyn_views(params@)) is Ok
                        &&& commands@ == old(self)@.observers[i].state.pending + queued(
                            dyn_views(params@),
                        )
                        &&& final(self)@ == old(self)@.with_state(
                            i,
                            SystemStateView {
                                pending: Seq::empty(),
                                fetched: false,
                                ..old(self)@.observers[i].state
                            },
                        )
                    },
                    Err(e) => {
                        &&& old(self)@.observers[i].state.check_release(
                            dyn_views(params@),
                        ) matches Err(inner)
                        &&& e == ObserverError::System(inner)
                        &&& final(self)@ == old(self)@
                    },
                },
            },
    {
        let i = match self.find_observer(id) {
            Some(i) => i,
            None => {
                return Err(ObserverError::UnknownObserver);
            },
        };
        assert(old(self)@.observers[i as int] == old(self).observers[i as int].info());
        let released = self.observers[i].state.release(params);
        let result = match released {
            Ok(()) => Ok(self.observers[i].state.apply()),
            Err(e) => Err(ObserverError::System(e)),
        };
        proof {
            let before = old(self)@;
            let after = final(self)@;
            assert(after.events =~= before.events);
            match released {
                Ok(_) => {
                    let expected = before.with_state(
                        i as int,
                        SystemStateView {
                            pending: Seq::empty(),
                            fetched: false,
                            ..before.observers[i as int].state
                        },
                    );
                    assert(after.observers =~= expected.observers);
                    assert forall|k: int, l: int| 0 <= k < l < after.observers.len() implies (
                    #[trigger] after.observers[k]).id != (#[trigger] after.observers[l]).id by {
                        assert(after.observers[k].id == before.observers[k].id);
                        assert(after.observers[l].id == before.observers[l].id);
                    }
                    assert forall|k: int| 0 <= k < after.observers.len() implies (
                    #[trigger] after.observers[k]).event.index < after.events.len()
                        && after.observers[k].id.id < after.next_observer by {
                        assert(after.observers[k].id == before.observers[k].id);
                        assert(after.observers[k].event == before.observers[k].event);
                    }
                },
                Err(_) => {
                    assert(after.observers =~= before.observers);
                },
            }
        }
        result
    }

    /// Removes the observer of number `id`: no trigger sets it off any
    /// more. `false`, and no change, where there is no such observer.
    pub fn remove_observer(&mut self, id: ObserverId) -> (removed: bool)
        requires
            old(self).wf(),
        ensures
            final(self).wf(),
            removed == old(self)@.observer_index(id) is Some,
            final(self)@ == old(self)@.remove_observer(id),
    {
        match self.find_observer(id) {
            Some(i) => {
                let _ = self.observers.remove(i);
                proof {
                    let before = old(self)@;
                    let after = final(self)@;
                    assert(after.events =~= before.events);
                    assert(after.observers =~= before.observers.remove(i as int));
                    assert forall|k: int, l: int| 0 <= k < l < after.observers.len() implies (
                    #[trigger] after.observers[k]).id != (#[trigger] after.observers[l]).id by {
                        let k0 = if k < i { k } else { k + 1 };
                        let l0 = if l < i { l } else { l + 1 };
                        assert(after.observers[k] == before.observers[k0]);
                        assert(after.observers[l] == before.observers[l0]);
                    }
                    assert forall|k: int| 0 <= k < after.observers.len() implies (
                    #[trigger] after.observers[k]).event.index < after.events.len()
                        && after.observers[k].id.id < after.next_observer by {
                        let k0 = if k < i { k } else { k + 1 };
                        assert(after.observers[k] == before.observers[k0]);
                    }
                }
                true
            },
            None => false,
        }
    }

    /// Unloads library `library`: every observer that belongs to it leaves
    /// the registry, so that no trigger calls into its code any more, and
    /// the note of every resource it brought is dropped. The answer names
    /// what left, for the caller to undo in the world. What belongs to
    /// other libraries, or to none, stays as it is.
    pub fn unload_library(&mut self, library: LibraryId) -> (unloaded: Unloaded)
        requires
            old(self).wf(),
        ensures
            final(self).wf(),
            final(self)@ == old(self)@.unload(library),
            unloaded.observers@ == owned_below(
                old(self)@.observers,
                library,
                old(self)@.observers.len(),
            ),
            unloaded.resources@ == resources_owned_below(
                old(self)@.resources,
                library,
                old(self)@.resources.len(),
            ),
    {
        proof {
            law_unload_leaves_nothing_behind(self@, library);
        }
        let ghost all = self@.observers;
        let mut rest: Vec<ObserverEntry> = Vec::new();
        core::mem::swap(&mut rest, &mut self.observers);
        let ghost entries = rest@;
        assert(observer_infos(entries) =~= all);
        assert(entries.len() == rest.len());
        let mut gone: Vec<ObserverId> = Vec::new();
        let mut done: usize = 0;
        while rest.len() > 0
            invariant
                done + rest.len() == entries.len(),
                entries.len() <= usize::MAX,
                rest@ == entries.skip(done as int),
                observer_infos(entries) == all,
                observer_infos(self.observers@) == kept_below(all, library, done as nat),
                gone@ == owned_below(all, library, done as nat),
                self.events == old(self).events,
                self.resources == old(self).resources,
                self.next_observer == old(self).next_observer,
                self.next_library == old(self).next_library,
                self.current_library == old(self).current_library,
            decreases rest.len(),
        {
            let entry = rest.remove(0);
            assert(entry == entries[done as int]);
            assert(all[done as int] == entry.info());
            assert(rest@ =~= entries.skip(done + 1));
            let ghost kept_before = observer_infos(self.observers@);
            if owned_by(entry.library, library) {
                gone.push(entry.id);
            } else {
                self.observers.push(entry);
                assert(observer_infos(self.observers@) =~= kept_before.push(entry.info()));
            }
            done += 1;
        }
        let ghost owned = self.resources@;
        let mut kept_resources: Vec<OwnedResource> = Vec::new();
        let mut gone_resources: Vec<ComponentId> = Vec::new();
        let mut i: usize = 0;
        while i < self.resources.len()
            invariant
                i <= self.resources.len(),
                self.resources@ == owned,
                kept_resources@ == resources_kept_below(owned, library, i as nat),
                gone_resources@ == resources_owned_below(owned, library, i as nat),
            decreases self.resources.len() - i,
        {
            let resource = self.resources[i];
            if resource.library.id == library.id {
                gone_resources.push(resource.resource);
            } else {
                kept_resources.push(resource);
            }
            i += 1;
        }
        self.resources = kept_resources;
        if owned_by(self.current_library, library) {
            self.current_library = None;
        }
        assert(final(self)@.events =~= old(self)@.events);
        Unloaded { observers: gone, resources: gone_resources }
    }
}

} // verus!
