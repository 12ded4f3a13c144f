//! The shared world as the bridge sees it: the types registered by name,
//! rows of byte blobs for the entities, and one blob per resource.
//!
//! How a host engine lays its storage out is its own business. What is kept
//! here is what the bridge reads and writes: which component an entity
//! carries, and the bytes of each.
use crate::component::{
    layout_of,
    Component,
    ComponentHooks,
    ComponentId,
    ComponentLayout,
    HookCall,
    HookContext,
    HookKind,
    TypePath,
};
use crate::entity::Entity;
use crate::name::{is_valid_type_name, valid_type_name};
use crate::storage::Blobs;
use vstd::prelude::*;

verus! {

/// Why a registration was turned down.
#[derive(Clone, Copy, Debug, PartialEq, Eq, Structural)]
pub enum RegisterError {
    /// The name is not a type name, or the bytes are not a wire name.
    InvalidName,
    /// No memory has the declared size and alignment, or the byte for the
    /// storage kind stands for none.
    InvalidLayout,
    /// The name is registered with another size, alignment or storage kind.
    LayoutMismatch,
    /// Every id is given away.
    Full,
}

/// Why the storage turned a write down.
#[derive(Clone, Copy, Debug, PartialEq, Eq, Structural)]
pub enum StorageError {
    /// The entity was never spawned, or is despawned.
    NoSuchEntity,
    /// The id is not registered, or is registered as the other kind of type.
    UnknownComponent,
    /// The value does not have the number of bytes that the type declares.
    SizeMismatch,
}

/// What the world knows of one registered type.
pub struct TypeInfo {
    pub name: Seq<char>,
    pub is_resource: bool,
    pub layout: ComponentLayout,
    pub hooks: ComponentHooks,
}

/// One entity as mathematics: whether it lives, and the bytes of each
/// component it carries.
#[verifier::ext_equal]
pub struct RowView {
    pub alive: bool,
    pub components: Map<ComponentId, Seq<u8>>,
}

/// The world as mathematics.
///
/// A type's id is its position in `types`; an entity's bits are its position
/// in `rows`.
#[verifier::ext_equal]
pub struct WorldView {
    pub types: Seq<TypeInfo>,
    pub rows: Seq<RowView>,
    pub resources: Map<ComponentId, Seq<u8>>,
}

/// The call that a hook of the given kind is owed, if there is such a hook.
pub open spec fn hook_call(hooks: ComponentHooks, kind: HookKind, context: HookContext) -> Seq<
    HookCall,
> {
    match hooks.hook(kind) {
        Some(function) => seq![HookCall { function, kind, context }],
        None => seq![],
    }
}

impl WorldView {
    /// Whether position `i` holds the type of the given name and kind.
    pub open spec fn names_type(self, i: int, name: Seq<char>, is_resource: bool) -> bool {
        &&& 0 <= i < self.types.len()
        &&& self.types[i].name == name
        &&& self.types[i].is_resource == is_resource
    }

    /// The position of the type of the given name and kind.
    pub open spec fn type_index(self, name: Seq<char>, is_resource: bool) -> Option<int> {
        if exists|i: int| self.names_type(i, name, is_resource) {
            Some(choose|i: int| self.names_type(i, name, is_resource))
        } else {
            None
        }
    }

    /// The id of the component registered under `name`.
    pub open spec fn component_id(self, name: Seq<char>) -> Option<ComponentId> {
        match self.type_index(name, false) {
            Some(i) => Some(ComponentId { index: i as usize }),
            None => None,
        }
    }

    /// The id of the resource registered under `name`.
    pub open spec fn resource_id(self, name: Seq<char>) -> Option<ComponentId> {
        match self.type_index(name, true) {
            Some(i) => Some(ComponentId { index: i as usize }),
            None => None,
        }
    }

    /// Whether `id` is registered as a component.
    pub open spec fn is_component(self, id: ComponentId) -> bool {
        id.index < self.types.len() && !self.types[id.index as int].is_resource
    }

    /// Whether `id` is registered as a resource.
    pub open spec fn is_resource(self, id: ComponentId) -> bool {
        id.index < self.types.len() && self.types[id.index as int].is_resource
    }

    /// Whether `bytes` can be stored as a value of `id`, a resource or a
    /// component as the flag says.
    pub open spec fn stores(self, id: ComponentId, is_resource: bool, bytes: Seq<u8>) -> bool {
        &&& id.index < self.types.len()
        &&& self.types[id.index as int].is_resource == is_resource
        &&& bytes.len() == self.types[id.index as int].layout.size
    }

    /// What a registration answers.
    pub open spec fn register_result(
        self,
        name: Seq<char>,
        is_resource: bool,
        layout: ComponentLayout,
    ) -> Result<ComponentId, RegisterError> {
        if !valid_type_name(name) {
            Err(RegisterError::InvalidName)
        } else if !layout.valid() {
            Err(RegisterError::InvalidLayout)
        } else {
            match self.type_index(name, is_resource) {
                Some(i) => if self.types[i].layout == layout {
                    Ok(ComponentId { index: i as usize })
                } else {
                    Err(RegisterError::LayoutMismatch)
                },
                None => if self.types.len() < usize::MAX {
                    Ok(ComponentId { index: self.types.len() as usize })
                } else {
                    Err(RegisterError::Full)
                },
            }
        }
    }

    /// The world after a registration: one type more where the name is new
    /// and the registration is in order, and the same world otherwise.
    pub open spec fn register(
        self,
        name: Seq<char>,
        is_resource: bool,
        layout: ComponentLayout,
        hooks: ComponentHooks,
    ) -> Self {
        if valid_type_name(name) && layout.valid() && self.type_index(name, is_resource) is None
            && self.types.len() < usize::MAX {
            WorldView {
                types: self.types.push(TypeInfo { name, is_resource, layout, hooks }),
                ..self
            }
        } else {
            self
        }
    }

    /// Whether `entity` was spawned and lives.
    pub open spec fn contains(self, entity: Entity) -> bool {
        entity.bits < self.rows.len() && self.rows[entity.bits as int].alive
    }

    /// Whether `entity` lives and carries component `id`.
    pub open spec fn has(self, entity: Entity, id: ComponentId) -> bool {
        self.contains(entity) && self.rows[entity.bits as int].components.dom().contains(id)
    }

    /// The bytes of component `id` on `entity`.
    pub open spec fn component(self, entity: Entity, id: ComponentId) -> Seq<u8> {
        self.rows[entity.bits as int].components[id]
    }

    /// The entity that the next spawn brings.
    pub open spec fn next_entity(self) -> Entity {
        Entity { bits: self.rows.len() as u64 }
    }

    /// The world after an entity without components was spawned.
    pub open spec fn spawn_empty(self) -> Self {
        WorldView {
            rows: self.rows.push(RowView { alive: true, components: Map::empty() }),
            ..self
        }
    }

    /// The world after `bytes` were stored as component `id` of `entity`.
    pub open spec fn write(self, entity: Entity, id: ComponentId, bytes: Seq<u8>) -> Self {
        WorldView {
            rows: self.rows.update(
                entity.bits as int,
                RowView {
                    alive: true,
                    components: self.rows[entity.bits as int].components.insert(id, bytes),
                },
            ),
            ..self
        }
    }

    /// The world after component `id` was taken from `entity`.
    pub open spec fn erase(self, entity: Entity, id: ComponentId) -> Self {
        WorldView {
            rows: self.rows.update(
                entity.bits as int,
                RowView {
                    alive: true,
                    components: self.rows[entity.bits as int].components.remove(id),
                },
            ),
            ..self
        }
    }

    /// The world after `entity` was despawned: its row stays, dead and
    /// empty, so that its bits name no later entity.
    pub open spec fn despawn(self, entity: Entity) -> Self {
        WorldView {
            rows: self.rows.update(
                entity.bits as int,
                RowView { alive: false, components: Map::empty() },
            ),
            ..self
        }
    }

    /// The world after `bytes` were stored as resource `id`.
    pub open spec fn write_resource(self, id: ComponentId, bytes: Seq<u8>) -> Self {
        WorldView { resources: self.resources.insert(id, bytes), ..self }
    }

    /// What a write of `bytes` to component `id` of `entity` answers.
    pub open spec fn check_write(self, entity: Entity, id: ComponentId, bytes: Seq<u8>) -> Result<
        (),
        StorageError,
    > {
        if !self.contains(entity) {
            Err(StorageError::NoSuchEntity)
        } else if !self.is_component(id) {
            Err(StorageError::UnknownComponent)
        } else if bytes.len() != self.types[id.index as int].layout.size {
            Err(StorageError::SizeMismatch)
        } else {
            Ok(())
        }
    }

    /// The hooks that a write to component `id` of `entity` sets off: the
    /// add hook where the component is new and the replace hook where it is
    /// not, then the insert hook.
    pub open spec fn write_hooks(self, entity: Entity, id: ComponentId, caller: Option<u64>) -> Seq<
        HookCall,
    > {
        let hooks = self.types[id.index as int].hooks;
        let context = HookContext { entity, component_id: id, caller };
        let first = if self.has(entity, id) {
            hook_call(hooks, HookKind::Replace, context)
        } else {
            hook_call(hooks, HookKind::Add, context)
        };
        first + hook_call(hooks, HookKind::Insert, context)
    }

    /// The hooks that taking component `id` from `entity` sets off: the
    /// replace hook, then the remove hook.
    pub open spec fn erase_hooks(self, entity: Entity, id: ComponentId, caller: Option<u64>) -> Seq<
        HookCall,
    > {
        let hooks = self.types[id.index as int].hooks;
        let context = HookContext { entity, component_id: id, caller };
        hook_call(hooks, HookKind::Replace, context) + hook_call(hooks, HookKind::Remove, context)
    }

    /// What taking component `id` from `entity` answers.
    pub open spec fn check_erase(self, entity: Entity, id: ComponentId) -> Result<
        (),
        StorageError,
    > {
        if !self.contains(entity) {
            Err(StorageError::NoSuchEntity)
        } else if !self.has(entity, id) {
            Err(StorageError::UnknownComponent)
        } else {
            Ok(())
        }
    }

    /// What a write of `bytes` to resource `id` answers.
    pub open spec fn check_write_resource(self, id: ComponentId, bytes: Seq<u8>) -> Result<
        (),
        StorageError,
    > {
        if !self.is_resource(id) {
            Err(StorageError::UnknownComponent)
        } else if bytes.len() != self.types[id.index as int].layout.size {
            Err(StorageError::SizeMismatch)
        } else {
            Ok(())
        }
    }

    /// The despawn hooks of the components of `entity` whose ids are below
    /// `bound`, in the order of the ids.
    pub open spec fn despawn_hooks_below(self, entity: Entity, caller: Option<u64>, bound: nat) -> Seq<
        HookCall,
    >
        decreases bound,
    {
        if bound == 0 {
            seq![]
        } else {
            let id = ComponentId { index: (bound - 1) as usize };
            let rest = self.despawn_hooks_below(entity, caller, (bound - 1) as nat);
            if self.has(entity, id) {
                rest + hook_call(
                    self.types[id.index as int].hooks,
                    HookKind::Despawn,
                    HookContext { entity, component_id: id, caller },
                )
            } else {
                rest
            }
        }
    }

    /// The hooks that despawning `entity` sets off: the despawn hook of
    /// each component it carries, in the order of the ids.
    pub open spec fn despawn_hooks(self, entity: Entity, caller: Option<u64>) -> Seq<HookCall> {
        self.despawn_hooks_below(entity, caller, self.types.len())
    }

    /// The types are told apart by name and kind, every layout and name is
    /// in order, and every stored value belongs to a registered type of the
    /// right kind and has its size. Dead entities carry nothing. There are
    /// no more types than an id can number, and no more rows than the bits
    /// of an entity can.
    pub open spec fn wf(self) -> bool {
        &&& self.types.len() <= usize::MAX
        &&& self.rows.len() <= u64::MAX
        &&& forall|i: int, j: int|
            0 <= i < j < self.types.len() ==> !(#[trigger] self.types[i].name
                == #[trigger] self.types[j].name && self.types[i].is_resource
                == self.types[j].is_resource)
        &&& forall|i: int|
            0 <= i < self.types.len() ==> (#[trigger] self.types[i]).layout.valid()
                && valid_type_name(self.types[i].name)
        &&& forall|e: int, id: ComponentId|
            0 <= e < self.rows.len() && #[trigger] self.rows[e].components.dom().contains(id)
                ==> self.rows[e].alive && self.stores(id, false, self.rows[e].components[id])
        &&& forall|id: ComponentId| #[trigger]
            self.resources.dom().contains(id) ==> self.stores(id, true, self.resources[id])
    }

    /// In a well-formed world a name and kind are found at one position
    /// only.
    pub proof fn lemma_type_index(self, i: int, name: Seq<char>, is_resource: bool)
        requires
            self.wf(),
            self.names_type(i, name, is_resource),
        ensures
            self.type_index(name, is_resource) == Some(i),
    {
        let j = choose|j: int| self.names_type(j, name, is_resource);
        if i < j {
            assert(self.types[i].name == self.types[j].name);
        } else if j < i {
            assert(self.types[j].name == self.types[i].name);
        }
    }

    /// A registration leaves a well-formed world well-formed.
    pub proof fn lemma_register_wf(
        self,
        name: Seq<char>,
        is_resource: bool,
        layout: ComponentLayout,
        hooks: ComponentHooks,
    )
        requires
            self.wf(),
        ensures
            self.register(name, is_resource, layout, hooks).wf(),
    {
        let after = self.register(name, is_resource, layout, hooks);
        if valid_type_name(name) && layout.valid() && self.type_index(name, is_resource) is None
            && self.types.len() < usize::MAX {
            assert forall|i: int, j: int| 0 <= i < j < after.types.len() implies !(
            #[trigger] after.types[i].name == #[trigger] after.types[j].name
                && after.types[i].is_resource == after.types[j].is_resource) by {
                if j == self.types.len() {
                    if after.types[i].name == name && after.types[i].is_resource == is_resource {
                        assert(self.names_type(i, name, is_resource));
                    }
                } else {
                    assert(after.types[i] == self.types[i]);
                    assert(after.types[j] == self.types[j]);
                }
            }
            assert forall|e: int, id: ComponentId|
                0 <= e < after.rows.len() && #[trigger] after.rows[e].components.dom().contains(
                    id,
                ) implies after.rows[e].alive && after.stores(
                id,
                false,
                after.rows[e].components[id],
            ) by {
                assert(self.stores(id, false, self.rows[e].components[id]));
                assert(after.types[id.index as int] == self.types[id.index as int]);
            }
            assert forall|id: ComponentId| #[trigger]
                after.resources.dom().contains(id) implies after.stores(
                id,
                true,
                after.resources[id],
            ) by {
                assert(self.stores(id, true, self.resources[id]));
                assert(after.types[id.index as int] == self.types[id.index as int]);
            }
        }
    }

    /// A write that is in order leaves a well-formed world well-formed.
    pub proof fn lemma_write_wf(self, entity: Entity, id: ComponentId, bytes: Seq<u8>)
        requires
            self.wf(),
            self.check_write(entity, id, bytes) is Ok,
        ensures
            self.write(entity, id, bytes).wf(),
    {
        let after = self.write(entity, id, bytes);
        assert forall|e: int, k: ComponentId|
            0 <= e < after.rows.len() && #[trigger] after.rows[e].components.dom().contains(
                k,
            ) implies after.rows[e].alive && after.stores(k, false, after.rows[e].components[k]) by {
            if e == entity.bits as int && k == id {
            } else {
                assert(self.rows[e].components.dom().contains(k));
            }
        }
    }

    /// Taking a component away leaves a well-formed world well-formed.
    pub proof fn lemma_erase_wf(self, entity: Entity, id: ComponentId)
        requires
            self.wf(),
            self.contains(entity),
        ensures
            self.erase(entity, id).wf(),
    {
        let after = self.erase(entity, id);
        assert forall|e: int, k: ComponentId|
            0 <= e < after.rows.len() && #[trigger] after.rows[e].components.dom().contains(
                k,
            ) implies after.rows[e].alive && after.stores(k, false, after.rows[e].components[k]) by {
            assert(self.rows[e].components.dom().contains(k));
        }
    }

    /// A despawn leaves a well-formed world well-formed.
    pub proof fn lemma_despawn_wf(self, entity: Entity)
        requires
            self.wf(),
            self.contains(entity),
        ensures
            self.despawn(entity).wf(),
    {
        let after = self.despawn(entity);
        assert forall|e: int, k: ComponentId|
            0 <= e < after.rows.len() && #[trigger] after.rows[e].components.dom().contains(
                k,
            ) implies after.rows[e].alive && after.stores(k, false, after.rows[e].components[k]) by {
            assert(self.rows[e].components.dom().contains(k));
        }
    }

    /// A resource write that is in order leaves a well-formed world
    /// well-formed.
    pub proof fn lemma_write_resource_wf(self, id: ComponentId, bytes: Seq<u8>)
        requires
            self.wf(),
            self.check_write_resource(id, bytes) is Ok,
        ensures
            self.write_resource(id, bytes).wf(),
    {
        let after = self.write_resource(id, bytes);
        assert forall|k: ComponentId| #[trigger] after.resources.dom().contains(k) implies after.stores(
            k,
            true,
            after.resources[k],
        ) by {
            if k != id {
                assert(self.resources.dom().contains(k));
            }
        }
    }
}

/// A name whose registration succeeds is found under the id that the
/// registration answered with, and registering it again answers with that
/// same id and changes nothing.
pub proof fn law_register_then_lookup(
    world: WorldView,
    name: Seq<char>,
    is_resource: bool,
    layout: ComponentLayout,
    hooks: ComponentHooks,
    again: ComponentHooks,
)
    requires
        world.wf(),
        world.register_result(name, is_resource, layout) is Ok,
    ensures
        ({
            let id = world.register_result(name, is_resource, layout)->Ok_0;
            let after = world.register(name, is_resource, layout, hooks);
            &&& after.wf()
            &&& after.type_index(name, is_resource) == Some(id.index as int)
            &&& !is_resource ==> after.component_id(name) == Some(id)
            &&& is_resource ==> after.resource_id(name) == Some(id)
            &&& after.register_result(name, is_resource, layout) == Ok::<ComponentId, RegisterError>(id)
            &&& after.register(name, is_resource, layout, again) == after
        }),
{
    let id = world.register_result(name, is_resource, layout)->Ok_0;
    let after = world.register(name, is_resource, layout, hooks);
    world.lemma_register_wf(name, is_resource, layout, hooks);
    match world.type_index(name, is_resource) {
        Some(i) => {
            assert(after == world);
        },
        None => {
            assert(after.names_type(world.types.len() as int, name, is_resource));
            after.lemma_type_index(world.types.len() as int, name, is_resource);
        },
    }
}

/// An id, once given to a name, is never given to another name, and the
/// name never gets another id: registrations only add to the end.
pub proof fn law_ids_are_stable(
    world: WorldView,
    name: Seq<char>,
    is_resource: bool,
    other: Seq<char>,
    other_is_resource: bool,
    layout: ComponentLayout,
    hooks: ComponentHooks,
)
    requires
        world.wf(),
        world.type_index(name, is_resource) is Some,
    ensures
        world.register(other, other_is_resource, layout, hooks).type_index(name, is_resource)
            == world.type_index(name, is_resource),
{
    let after = world.register(other, other_is_resource, layout, hooks);
    world.lemma_register_wf(other, other_is_resource, layout, hooks);
    let i = world.type_index(name, is_resource)->Some_0;
    assert(world.names_type(i, name, is_resource));
    assert(after.types[i] == world.types[i]);
    assert(after.names_type(i, name, is_resource));
    after.lemma_type_index(i, name, is_resource);
}

/// Bytes stored as a component of a freshly spawned entity are the bytes
/// that the entity carries: not one bit differs.
pub proof fn law_spawn_then_read(world: WorldView, id: ComponentId, bytes: Seq<u8>)
    requires
        world.wf(),
        world.rows.len() < u64::MAX,
        world.is_component(id),
        bytes.len() == world.types[id.index as int].layout.size,
    ensures
        ({
            let entity = world.next_entity();
            let spawned = world.spawn_empty();
            let after = spawned.write(entity, id, bytes);
            &&& spawned.contains(entity)
            &&& spawned.check_write(entity, id, bytes) is Ok
            &&& after.wf()
            &&& after.has(entity, id)
            &&& after.component(entity, id) == bytes
        }),
{
    let entity = world.next_entity();
    let spawned = world.spawn_empty();
    assert(spawned.wf()) by {
        assert forall|e: int, k: ComponentId|
            0 <= e < spawned.rows.len() && #[trigger] spawned.rows[e].components.dom().contains(
                k,
            ) implies spawned.rows[e].alive && spawned.stores(k, false, spawned.rows[e].components[k]) by {
            if e < world.rows.len() {
                assert(world.rows[e].components.dom().contains(k));
            }
        }
    }
    spawned.lemma_write_wf(entity, id, bytes);
}

/// Of two writes to one resource, the later one stands: after both, the
/// resource holds what the second wrote, whatever the first wrote.
pub proof fn law_later_write_stands(world: WorldView, id: ComponentId, first: Seq<u8>, second: Seq<u8>)
    requires
        world.wf(),
        world.check_write_resource(id, first) is Ok,
        world.check_write_resource(id, second) is Ok,
    ensures
        world.write_resource(id, first).wf(),
        world.write_resource(id, first).resources[id] == first,
        world.write_resource(id, first).write_resource(id, second).wf(),
        world.write_resource(id, first).write_resource(id, second).resources[id] == second,
        world.write_resource(id, first).write_resource(id, second) == world.write_resource(id, second),
{
    world.lemma_write_resource_wf(id, first);
    world.write_resource(id, first).lemma_write_resource_wf(id, second);
    assert(world.write_resource(id, first).write_resource(id, second).resources
        =~= world.write_resource(id, second).resources);
}

struct TypeEntry {
    name: String,
    is_resource: bool,
    layout: ComponentLayout,
    hooks: ComponentHooks,
}

impl TypeEntry {
    spec fn info(self) -> TypeInfo {
        TypeInfo {
            name: self.name@,
            is_resource: self.is_resource,
            layout: self.layout,
            hooks: self.hooks,
        }
    }
}

struct Row {
    alive: bool,
    blobs: Blobs,
}

impl Row {
    spec fn view(self) -> RowView {
        RowView { alive: self.alive, components: self.blobs@ }
    }
}

/// The shared world.
pub struct World {
    types: Vec<TypeEntry>,
    rows: Vec<Row>,
    resources: Blobs,
}

/// The calls owed to the hook of one kind, as a list to append to.
fn push_hook(calls: &mut Vec<HookCall>, hooks: &ComponentHooks, kind: HookKind, context: HookContext)
    ensures
        final(calls)@ == old(calls)@ + hook_call(*hooks, kind, context),
{
    match hooks.get(kind) {
        Some(function) => {
            calls.push(HookCall { function, kind, context });
            assert(final(calls)@ =~= old(calls)@ + hook_call(*hooks, kind, context));
        },
        None => {
            assert(final(calls)@ =~= old(calls)@ + hook_call(*hooks, kind, context));
        },
    }
}

fn copy_bytes(bytes: &[u8]) -> (out: Vec<u8>)
    ensures
        out@ == bytes@,
{
    let mut out: Vec<u8> = Vec::new();
    let mut i: usize = 0;
    while i < bytes.len()
        invariant
            i <= bytes.len(),
            out@ == bytes@.take(i as int),
        decreases bytes.len() - i,
    {
        out.push(bytes[i]);
        assert(bytes@.take(i + 1) =~= bytes@.take(i as int).push(bytes@[i as int]));
        i += 1;
    }
    assert(bytes@.take(bytes.len() as int) =~= bytes@);
    out
}

impl World {
    /// The world as mathematics.
    pub closed spec fn view(&self) -> WorldView {
        WorldView {
            types: Seq::new(self.types.len() as nat, |i: int| self.types[i].info()),
            rows: Seq::new(self.rows.len() as nat, |i: int| self.rows[i].view()),
            resources: self.resources@,
        }
    }

    /// The world is well-formed.
    pub open spec fn wf(&self) -> bool {
        self@.wf()
    }

    /// A world without types, entities or resources.
    pub fn new() -> (world: Self)
        ensures
            world.wf(),
            world@.types.len() == 0,
            world@.rows.len() == 0,
            world@.resources == Map::<ComponentId, Seq<u8>>::empty(),
    {
        World { types: Vec::new(), rows: Vec::new(), resources: Blobs::new() }
    }

    /// The position of the type of the given name and kind.
    fn find_type(&self, name: &str, is_resource: bool) -> (r: Option<usize>)
        requires
            self.wf(),
        ensures
            match r {
                Some(i) => self@.type_index(name@, is_resource) == Some(i as int),
                None => self@.type_index(name@, is_resource) is None,
            },
    {
        let key = name.to_owned();
        let mut i: usize = 0;
        while i < self.types.len()
            invariant
                i <= self.types.len(),
                self.wf(),
                key@ == name@,
                forall|j: int| 0 <= j < i ==> !self@.names_type(j, name@, is_resource),
            decreases self.types.len() - i,
        {
            if self.types[i].is_resource == is_resource && self.types[i].name == key {
                proof {
                    assert(self@.names_type(i as int, name@, is_resource));
                    self@.lemma_type_index(i as int, name@, is_resource);
                }
                return Some(i);
            }
            i += 1;
        }
        None
    }

    fn register(
        &mut self,
        name: &str,
        is_resource: bool,
        layout: ComponentLayout,
        hooks: ComponentHooks,
    ) -> (r: Result<ComponentId, RegisterError>)
        requires
            old(self).wf(),
        ensures
            final(self).wf(),
            r == old(self)@.register_result(name@, is_resource, layout),
            final(self)@ == old(self)@.register(name@, is_resource, layout, hooks),
    {
        proof {
            self@.lemma_register_wf(name@, is_resource, layout, hooks);
        }
        if !is_valid_type_name(name) {
            return Err(RegisterError::InvalidName);
        }
        if !layout.is_valid() {
            return Err(RegisterError::InvalidLayout);
        }
        match self.find_type(name, is_resource) {
            Some(i) => {
                if self.types[i].layout.same_as(&layout) {
                    Ok(ComponentId::new(i))
                } else {
                    Err(RegisterError::LayoutMismatch)
                }
            },
            None => {
                let index = self.types.len();
                if index == usize::MAX {
                    return Err(RegisterError::Full);
                }
                self.types.push(TypeEntry { name: name.to_owned(), is_resource, layout, hooks });
                assert(final(self)@.types =~= old(self)@.types.push(
                    TypeInfo { name: name@, is_resource, layout, hooks },
                ));
                assert(final(self)@.rows =~= old(self)@.rows);
                Ok(ComponentId::new(index))
            },
        }
    }

    /// Registers a component type under `name` and answers with its id.
    ///
    /// A name that is registered already keeps the id and the hooks it has:
    /// the call answers with that id where the layout is the one declared
    /// before, and fails where it is not. A name with a NUL in it, and a
    /// layout that no memory can have, fail too. A failed call changes
    /// nothing.
    pub fn register_component_from_type_path(
        &mut self,
        name: &str,
        layout: ComponentLayout,
        hooks: ComponentHooks,
    ) -> (r: Result<ComponentId, RegisterError>)
        requires
            old(self).wf(),
        ensures
            final(self).wf(),
            r == old(self)@.register_result(name@, false, layout),
            final(self)@ == old(self)@.register(name@, false, layout, hooks),
    {
        self.register(name, false, layout, hooks)
    }

    /// Registers component type `C` under its name, with the layout that
    /// the compiler gives it and without hooks, and answers with its id.
    pub fn register_component<C: Component>(&mut self) -> (r: Result<ComponentId, RegisterError>)
        requires
            old(self).wf(),
        ensures
            final(self).wf(),
            r == old(self)@.register_result(C::type_path_spec(), false, layout_of::<C>()),
            final(self)@ == old(self)@.register(
                C::type_path_spec(),
                false,
                layout_of::<C>(),
                ComponentHooks::none_spec(),
            ),
    {
        self.register(C::type_path(), false, ComponentLayout::of::<C>(), ComponentHooks::none())
    }

    /// The id of component type `R`; `None` where it is not registered.
    pub fn get_component_id<R: TypePath>(&self) -> (r: Option<ComponentId>)
        requires
            self.wf(),
        ensures
            r == self@.component_id(R::type_path_spec()),
    {
        self.get_component_id_from_type_path(R::type_path())
    }

    /// The id of resource type `R`; `None` where it is not registered.
    pub fn get_resource_id<R: TypePath>(&self) -> (r: Option<ComponentId>)
        requires
            self.wf(),
        ensures
            r == self@.resource_id(R::type_path_spec()),
    {
        self.get_resource_id_from_type_path(R::type_path())
    }

    /// Registers a resource type under `name` and answers with its id, as
    /// `register_component_from_type_path` does for a component.
    pub fn register_resource_from_type_path(&mut self, name: &str, layout: ComponentLayout) -> (r: Result<
        ComponentId,
        RegisterError,
    >)
        requires
            old(self).wf(),
        ensures
            final(self).wf(),
            r == old(self)@.register_result(name@, true, layout),
            final(self)@ == old(self)@.register(name@, true, layout, ComponentHooks::none_spec()),
    {
        self.register(name, true, layout, ComponentHooks::none())
    }

    /// The id of the component registered under `type_path`; `None` where
    /// no component was.
    pub fn get_component_id_from_type_path(&self, type_path: &str) -> (r: Option<ComponentId>)
        requires
            self.wf(),
        ensures
            r == self@.component_id(type_path@),
    {
        match self.find_type(type_path, false) {
            Some(i) => Some(ComponentId::new(i)),
            None => None,
        }
    }

    /// The id of the resource registered under `type_path`; `None` where no
    /// resource was.
    pub fn get_resource_id_from_type_path(&self, type_path: &str) -> (r: Option<ComponentId>)
        requires
            self.wf(),
        ensures
            r == self@.resource_id(type_path@),
    {
        match self.find_type(type_path, true) {
            Some(i) => Some(ComponentId::new(i)),
            None => None,
        }
    }

    /// The number of registered types.
    pub fn type_count(&self) -> (n: usize)
        ensures
            n == self@.types.len(),
    {
        self.types.len()
    }

    /// Whether `id` is registered as a component.
    pub fn is_component(&self, id: ComponentId) -> (b: bool)
        ensures
            b == self@.is_component(id),
    {
        id.index < self.types.len() && !self.types[id.index].is_resource
    }

    /// Whether `id` is registered as a resource.
    pub fn is_resource(&self, id: ComponentId) -> (b: bool)
        ensures
            b == self@.is_resource(id),
    {
        id.index < self.types.len() && self.types[id.index].is_resource
    }

    /// The layout that type `id` was registered with.
    pub fn layout_of(&self, id: ComponentId) -> (r: Option<ComponentLayout>)
        ensures
            r == (if id.index < self@.types.len() {
                Some(self@.types[id.index as int].layout)
            } else {
                None
            }),
    {
        if id.index < self.types.len() {
            Some(self.types[id.index].layout)
        } else {
            None
        }
    }

    /// The hooks that type `id` was registered with.
    pub fn hooks_of(&self, id: ComponentId) -> (r: Option<ComponentHooks>)
        ensures
            r == (if id.index < self@.types.len() {
                Some(self@.types[id.index as int].hooks)
            } else {
                None
            }),
    {
        if id.index < self.types.len() {
            Some(self.types[id.index].hooks)
        } else {
            None
        }
    }

    /// The number of entities ever spawned, dead ones included. The bits of
    /// every entity are below it.
    pub fn entity_count(&self) -> (n: usize)
        ensures
            n == self@.rows.len(),
    {
        self.rows.len()
    }

    /// Spawns an entity without components.
    pub fn spawn_empty(&mut self) -> (entity: Entity)
        requires
            old(self).wf(),
        ensures
            final(self).wf(),
            entity == old(self)@.next_entity(),
            final(self)@ == old(self)@.spawn_empty(),
    {
        let bits = self.rows.len() as u64;
        self.rows.push(Row { alive: true, blobs: Blobs::new() });
        assert(final(self)@.rows =~= old(self)@.spawn_empty().rows);
        assert(final(self)@.types =~= old(self)@.types);
        Entity::from_bits(bits)
    }

    /// Spawns an entity that carries `bytes` as component `id`, and answers
    /// with the entity and the hooks that this sets off. Fails, and spawns
    /// nothing, where the id is no component or the bytes are not as many
    /// as the component's layout says.
    pub fn spawn(&mut self, id: ComponentId, bytes: &[u8], caller: Option<u64>) -> (r: Result<
        (Entity, Vec<HookCall>),
        StorageError,
    >)
        requires
            old(self).wf(),
        ensures
            final(self).wf(),
            match r {
                Ok((entity, calls)) => {
                    let spawned = old(self)@.spawn_empty();
                    &&& entity == old(self)@.next_entity()
                    &&& spawned.check_write(entity, id, bytes@) is Ok
                    &&& calls@ == spawned.write_hooks(entity, id, caller)
                    &&& final(self)@ == spawned.write(entity, id, bytes@)
                },
                Err(e) => {
                    &&& e != StorageError::NoSuchEntity
                    &&& old(self)@.spawn_empty().check_write(
                        old(self)@.next_entity(),
                        id,
                        bytes@,
                    ) == Err::<(), StorageError>(e)
                    &&& final(self)@ == old(self)@
                },
            },
    {
        if !self.is_component(id) {
            return Err(StorageError::UnknownComponent);
        }
        if bytes.len() != self.types[id.index].layout.size {
            return Err(StorageError::SizeMismatch);
        }
        let entity = self.spawn_empty();
        match self.insert(entity, id, bytes, caller) {
            Ok(calls) => Ok((entity, calls)),
            Err(e) => Err(e),
        }
    }

    /// The row of `entity`, where it lives.
    fn row_of(&self, entity: Entity) -> (r: Option<usize>)
        ensures
            r is Some <==> self@.contains(entity),
            r matches Some(i) ==> i == entity.bits,
    {
        if entity.bits < self.rows.len() as u64 {
            let i = entity.bits as usize;
            if self.rows[i].alive {
                Some(i)
            } else {
                None
            }
        } else {
            None
        }
    }

    /// Whether `entity` was spawned and lives.
    pub fn contains(&self, entity: Entity) -> (b: bool)
        ensures
            b == self@.contains(entity),
    {
        self.row_of(entity).is_some()
    }

    /// Whether `entity` lives and carries component `id`.
    pub fn has(&self, entity: Entity, id: ComponentId) -> (b: bool)
        ensures
            b == self@.has(entity, id),
    {
        match self.row_of(entity) {
            Some(i) => self.rows[i].blobs.contains(id),
            None => false,
        }
    }

    /// The bytes of component `id` on `entity`, in place; `None` where the
    /// entity does not live or does not carry the component.
    pub fn get(&self, entity: Entity, id: ComponentId) -> (r: Option<&[u8]>)
        ensures
            r is Some <==> self@.has(entity, id),
            r matches Some(bytes) ==> bytes@ == self@.component(entity, id),
    {
        match self.row_of(entity) {
            Some(i) => self.rows[i].blobs.get(id),
            None => None,
        }
    }

    /// The bytes of component `id` on `entity`, in place and open to
    /// writes; `None` where the entity does not live or does not carry the
    /// component. What is written through the slice is the component's
    /// value afterwards, and nothing else changes. A slice keeps its length,
    /// so the world stays well-formed.
    pub fn get_mut(&mut self, entity: Entity, id: ComponentId) -> (r: Option<&mut [u8]>)
        requires
            old(self).wf(),
        ensures
            r is Some <==> old(self)@.has(entity, id),
            r is None ==> final(self)@ == old(self)@,
            r matches Some(bytes) ==> {
                &&& bytes@ == old(self)@.component(entity, id)
                &&& final(self)@ =~~= old(self)@.write(entity, id, final(bytes)@)
                &&& final(bytes)@.len() == bytes@.len() ==> final(self).wf()
            },
    {
        proof {
            assert forall|bytes: Seq<u8>|
                old(self)@.has(entity, id) && bytes.len() == old(self)@.component(
                    entity,
                    id,
                ).len() implies #[trigger] old(self)@.write(entity, id, bytes).wf() by {
                old(self)@.lemma_write_wf(entity, id, bytes);
            }
        }
        if self.has(entity, id) {
            let i = entity.bits as usize;
            self.rows[i].blobs.get_mut(id)
        } else {
            None
        }
    }

    /// Stores `bytes` as component `id` of `entity` and answers with the
    /// hooks that this sets off, in the order in which they are due. The
    /// write fails, and changes nothing, where the entity does not live, the
    /// id is no component, or the bytes are not as many as the component's
    /// layout says.
    pub fn insert(&mut self, entity: Entity, id: ComponentId, bytes: &[u8], caller: Option<u64>) -> (r:
        Result<Vec<HookCall>, StorageError>)
        requires
            old(self).wf(),
        ensures
            final(self).wf(),
            match r {
                Ok(calls) => {
                    &&& old(self)@.check_write(entity, id, bytes@) is Ok
                    &&& calls@ == old(self)@.write_hooks(entity, id, caller)
                    &&& final(self)@ == old(self)@.write(entity, id, bytes@)
                },
                Err(e) => {
                    &&& old(self)@.check_write(entity, id, bytes@) == Err::<(), StorageError>(e)
                    &&& final(self)@ == old(self)@
                },
            },
    {
        let i = match self.row_of(entity) {
            Some(i) => i,
            None => {
                return Err(StorageError::NoSuchEntity);
            },
        };
        if !self.is_component(id) {
            return Err(StorageError::UnknownComponent);
        }
        if bytes.len() != self.types[id.index].layout.size {
            return Err(StorageError::SizeMismatch);
        }
        proof {
            self@.lemma_write_wf(entity, id, bytes@);
        }
        let hooks = self.types[id.index].hooks;
        let context = HookContext { entity, component_id: id, caller };
        let mut calls: Vec<HookCall> = Vec::new();
        if self.rows[i].blobs.contains(id) {
            push_hook(&mut calls, &hooks, HookKind::Replace, context);
        } else {
            push_hook(&mut calls, &hooks, HookKind::Add, context);
        }
        push_hook(&mut calls, &hooks, HookKind::Insert, context);
        self.rows[i].blobs.set(id, copy_bytes(bytes));
        assert(final(self)@.rows =~= old(self)@.write(entity, id, bytes@).rows);
        assert(final(self)@.types =~= old(self)@.types);
        Ok(calls)
    }

    /// Takes component `id` from `entity` and answers with the hooks that
    /// this sets off. Fails, and changes nothing, where the entity does not
    /// live or does not carry the component.
    pub fn remove(&mut self, entity: Entity, id: ComponentId, caller: Option<u64>) -> (r: Result<
        Vec<HookCall>,
        StorageError,
    >)
        requires
            old(self).wf(),
        ensures
            final(self).wf(),
            match r {
                Ok(calls) => {
                    &&& old(self)@.check_erase(entity, id) is Ok
                    &&& calls@ == old(self)@.erase_hooks(entity, id, caller)
                    &&& final(self)@ == old(self)@.erase(entity, id)
                },
                Err(e) => {
                    &&& old(self)@.check_erase(entity, id) == Err::<(), StorageError>(e)
                    &&& final(self)@ == old(self)@
                },
            },
    {
        let i = match self.row_of(entity) {
            Some(i) => i,
            None => {
                return Err(StorageError::NoSuchEntity);
            },
        };
        if !self.rows[i].blobs.contains(id) {
            return Err(StorageError::UnknownComponent);
        }
        proof {
            self@.lemma_erase_wf(entity, id);
            assert(self@.rows[i as int].components.dom().contains(id));
        }
        let hooks = self.types[id.index].hooks;
        let context = HookContext { entity, component_id: id, caller };
        let mut calls: Vec<HookCall> = Vec::new();
        push_hook(&mut calls, &hooks, HookKind::Replace, context);
        push_hook(&mut calls, &hooks, HookKind::Remove, context);
        let _ = self.rows[i].blobs.take(id);
        assert(final(self)@.rows =~= old(self)@.erase(entity, id).rows);
        assert(final(self)@.types =~= old(self)@.types);
        Ok(calls)
    }

    /// Despawns `entity` and answers with the hooks that this sets off;
    /// `None`, and no change, where the entity does not live.
    pub fn despawn(&mut self, entity: Entity, caller: Option<u64>) -> (r: Option<Vec<HookCall>>)
        requires
            old(self).wf(),
        ensures
            final(self).wf(),
            r is Some <==> old(self)@.contains(entity),
            match r {
                Some(calls) => {
                    &&& calls@ == old(self)@.despawn_hooks(entity, caller)
                    &&& final(self)@ == old(self)@.despawn(entity)
                },
                None => final(self)@ == old(self)@,
            },
    {
        let i = match self.row_of(entity) {
            Some(i) => i,
            None => {
                return None;
            },
        };
        proof {
            self@.lemma_despawn_wf(entity);
        }
        let mut calls: Vec<HookCall> = Vec::new();
        let mut n: usize = 0;
        while n < self.types.len()
            invariant
                n <= self.types.len(),
                i == entity.bits,
                i < self.rows.len(),
                self.rows[i as int].alive,
                calls@ == self@.despawn_hooks_below(entity, caller, n as nat),
            decreases self.types.len() - n,
        {
            let id = ComponentId::new(n);
            if self.rows[i].blobs.contains(id) {
                let hooks = self.types[n].hooks;
                push_hook(
                    &mut calls,
                    &hooks,
                    HookKind::Despawn,
                    HookContext { entity, component_id: id, caller },
                );
            }
            n += 1;
        }
        self.rows[i].alive = false;
        self.rows[i].blobs.clear();
        assert(final(self)@.rows =~= old(self)@.despawn(entity).rows);
        assert(final(self)@.types =~= old(self)@.types);
        Some(calls)
    }

    /// Stores `bytes` as resource `id`. Fails, and changes nothing, where
    /// the id is no resource or the bytes are not as many as the layout
    /// says.
    pub fn insert_resource(&mut self, id: ComponentId, bytes: &[u8]) -> (r: Result<(), StorageError>)
        requires
            old(self).wf(),
        ensures
            final(self).wf(),
            r == old(self)@.check_write_resource(id, bytes@),
            final(self)@ == (if r is Ok {
                old(self)@.write_resource(id, bytes@)
            } else {
                old(self)@
            }),
    {
        if !self.is_resource(id) {
            return Err(StorageError::UnknownComponent);
        }
        if bytes.len() != self.types[id.index].layout.size {
            return Err(StorageError::SizeMismatch);
        }
        proof {
            self@.lemma_write_resource_wf(id, bytes@);
        }
        self.resources.set(id, copy_bytes(bytes));
        assert(final(self)@.rows =~= old(self)@.rows);
        assert(final(self)@.types =~= old(self)@.types);
        Ok(())
    }

    /// Takes resource `id` out of the world. `false`, and no change, where
    /// the world holds no such resource.
    pub fn remove_resource(&mut self, id: ComponentId) -> (removed: bool)
        requires
            old(self).wf(),
        ensures
            final(self).wf(),
            removed == old(self)@.resources.dom().contains(id),
            final(self)@ == (WorldView {
                resources: old(self)@.resources.remove(id),
                ..old(self)@
            }),
    {
        let taken = self.resources.take(id);
        proof {
            assert(final(self)@.rows =~= old(self)@.rows);
            assert(final(self)@.types =~= old(self)@.types);
            assert forall|k: ComponentId| #[trigger]
                final(self)@.resources.dom().contains(k) implies final(self)@.stores(
                k,
                true,
                final(self)@.resources[k],
            ) by {
                assert(old(self)@.resources.dom().contains(k));
            }
        }
        taken.is_some()
    }

    /// The bytes of resource `id`, in place; `None` where the world holds
    /// no such resource.
    pub fn get_resource_by_id(&self, id: ComponentId) -> (r: Option<&[u8]>)
        ensures
            r is Some <==> self@.resources.dom().contains(id),
            r matches Some(bytes) ==> bytes@ == self@.resources[id],
    {
        self.resources.get(id)
    }

    /// The bytes of resource `id`, in place and open to writes; `None`
    /// where the world holds no such resource. What is written through the
    /// slice is the resource's value afterwards, and nothing else changes.
    pub fn get_resource_mut_by_id(&mut self, id: ComponentId) -> (r: Option<&mut [u8]>)
        requires
            old(self).wf(),
        ensures
            r is Some <==> old(self)@.resources.dom().contains(id),
            r is None ==> final(self)@ == old(self)@,
            r matches Some(bytes) ==> {
                &&& bytes@ == old(self)@.resources[id]
                &&& final(self)@ =~~= old(self)@.write_resource(id, final(bytes)@)
                &&& final(bytes)@.len() == bytes@.len() ==> final(self).wf()
            },
    {
        proof {
            assert forall|bytes: Seq<u8>|
                old(self)@.resources.dom().contains(id) && bytes.len()
                    == old(self)@.resources[id].len() implies #[trigger] old(self)@.write_resource(
                id,
                bytes,
            ).wf() by {
                old(self)@.lemma_write_resource_wf(id, bytes);
            }
        }
        self.resources.get_mut(id)
    }
}

} // verus!
