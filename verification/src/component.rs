//! Component ids, byte layouts and lifecycle hooks.
use vstd::arithmetic::power2::is_pow2;
use vstd::prelude::*;

verus! {

/// The number a world gives to a registered component or resource type. It
/// is the position of the type in the order of registration, and stays the
/// same for as long as the world lives.
#[derive(Clone, Copy, Debug, PartialEq, Eq, Structural)]
pub struct ComponentId {
    pub index: usize,
}

impl ComponentId {
    /// The id with the given number.
    pub fn new(index: usize) -> (id: Self)
        ensures
            id.index == index,
    {
        ComponentId { index }
    }

    /// The number behind the id.
    pub fn index(&self) -> (index: usize)
        ensures
            index == self.index,
    {
        self.index
    }
}

/// How the host stores the values of a component.
#[derive(Clone, Copy, Debug, PartialEq, Eq, Structural)]
pub enum StorageType {
    /// Column-wise, one column per component.
    Table,
    /// Row-wise, in a sparse set.
    SparseSet,
}

impl StorageType {
    /// The storage kind that the flag of the registration call stands for.
    pub fn from_is_table(is_table: bool) -> (storage: Self)
        ensures
            storage == (if is_table {
                StorageType::Table
            } else {
                StorageType::SparseSet
            }),
    {
        if is_table {
            StorageType::Table
        } else {
            StorageType::SparseSet
        }
    }

    /// The storage kind that `kind` stands for on the wire: one for a
    /// table, zero for a sparse set, and no kind for any other byte.
    pub open spec fn wire_kind(kind: u8) -> Option<StorageType> {
        if kind == 1 {
            Some(StorageType::Table)
        } else if kind == 0 {
            Some(StorageType::SparseSet)
        } else {
            None
        }
    }

    /// The storage kind that `kind` stands for on the wire.
    pub fn from_wire(kind: u8) -> (r: Option<Self>)
        ensures
            r == Self::wire_kind(kind),
    {
        if kind == 1 {
            Some(StorageType::Table)
        } else if kind == 0 {
            Some(StorageType::SparseSet)
        } else {
            None
        }
    }

    /// The byte that stands for this storage kind on the wire.
    pub fn to_wire(&self) -> (kind: u8)
        ensures
            Self::wire_kind(kind) == Some(*self),
    {
        match self {
            StorageType::Table => 1,
            StorageType::SparseSet => 0,
        }
    }

    /// The flag that stands for this storage kind in the registration call.
    pub fn is_table(&self) -> (b: bool)
        ensures
            b == (*self == StorageType::Table),
    {
        match self {
            StorageType::Table => true,
            StorageType::SparseSet => false,
        }
    }
}

/// How many bytes a value occupies, how they are aligned, and how the host
/// stores them. Both sides of the bridge must declare the same layout for
/// the same type name.
#[derive(Clone, Copy, Debug, PartialEq, Eq, Structural)]
pub struct ComponentLayout {
    pub size: usize,
    pub align: usize,
    pub storage: StorageType,
}

/// Whether memory of `size` bytes aligned to `align` can be described at
/// all: the alignment is a power of two, and the size rounded up to the
/// alignment does not exceed the largest signed size.
pub open spec fn valid_size_align(size: nat, align: nat) -> bool {
    is_pow2(align as int) && size + align - 1 <= isize::MAX
}

/// Decides `is_pow2` by halving.
fn is_power_of_two(n: usize) -> (b: bool)
    ensures
        b == is_pow2(n as int),
        b ==> n >= 1,
{
    if n == 0 {
        proof {
            reveal(is_pow2);
        }
        return false;
    }
    let mut m: usize = n;
    while m > 1 && m % 2 == 0
        invariant
            m >= 1,
            is_pow2(m as int) == is_pow2(n as int),
        decreases m,
    {
        proof {
            reveal(is_pow2);
        }
        m = m / 2;
    }
    proof {
        reveal(is_pow2);
    }
    m == 1
}

impl ComponentLayout {
    /// Whether the layout can be described at all.
    pub open spec fn valid(self) -> bool {
        valid_size_align(self.size as nat, self.align as nat)
    }

    /// The layout with the given parts.
    pub fn new(size: usize, align: usize, storage: StorageType) -> (layout: Self)
        ensures
            layout == (ComponentLayout { size, align, storage }),
    {
        ComponentLayout { size, align, storage }
    }

    /// The layout of component type `C`.
    pub fn of<C: Component>() -> (layout: Self)
        ensures
            layout == layout_of::<C>(),
    {
        ComponentLayout {
            size: core::mem::size_of::<C>(),
            align: core::mem::align_of::<C>(),
            storage: C::storage_type(),
        }
    }

    /// Decides `valid`.
    pub fn is_valid(&self) -> (b: bool)
        ensures
            b == self.valid(),
    {
        let max: usize = usize::MAX / 2;
        assert(max == isize::MAX);
        if !is_power_of_two(self.align) {
            return false;
        }
        self.align - 1 <= max && self.size <= max - (self.align - 1)
    }

    /// Whether two layouts agree in every part.
    pub fn same_as(&self, other: &ComponentLayout) -> (b: bool)
        ensures
            b == (*self == *other),
    {
        self.size == other.size && self.align == other.align && self.storage.is_table()
            == other.storage.is_table()
    }
}

/// A type that is known to both sides of the bridge by a name.
pub trait TypePath {
    /// The name of the type, as mathematics.
    spec fn type_path_spec() -> Seq<char>;

    /// The name of the type.
    fn type_path() -> (path: &'static str)
        ensures
            path@ == Self::type_path_spec(),
    ;
}

/// A plain-old-data type whose values entities can carry.
pub trait Component: TypePath + Sized {
    /// How the host stores the values, as mathematics.
    spec fn storage_type_spec() -> StorageType;

    /// How the host stores the values.
    fn storage_type() -> (storage: StorageType)
        ensures
            storage == Self::storage_type_spec(),
    ;
}

/// The layout of component type `C`, as mathematics: the size and alignment
/// that the compiler gives the type, and the storage kind it declares.
pub open spec fn layout_of<C: Component>() -> ComponentLayout {
    ComponentLayout {
        size: vstd::layout::size_of::<C>() as usize,
        align: vstd::layout::align_of::<C>() as usize,
        storage: C::storage_type_spec(),
    }
}

/// The storage transitions that a hook can be attached to.
#[derive(Clone, Copy, Debug, PartialEq, Eq, Structural)]
pub enum HookKind {
    /// A component arrives on an entity that did not have it.
    Add,
    /// A value is written, whether the component was there or not.
    Insert,
    /// A value is about to be overwritten or taken away.
    Replace,
    /// A component is taken away from an entity.
    Remove,
    /// The entity that carries the component is despawned.
    Despawn,
}

/// The hooks of one component: at most one function of each kind, each
/// named by the address the guest gave for it.
#[derive(Clone, Copy, Debug, PartialEq, Eq, Structural)]
pub struct ComponentHooks {
    pub on_add: Option<usize>,
    pub on_insert: Option<usize>,
    pub on_replace: Option<usize>,
    pub on_remove: Option<usize>,
    pub on_despawn: Option<usize>,
}

impl ComponentHooks {
    /// The hook of the given kind, as mathematics.
    pub open spec fn hook(self, kind: HookKind) -> Option<usize> {
        match kind {
            HookKind::Add => self.on_add,
            HookKind::Insert => self.on_insert,
            HookKind::Replace => self.on_replace,
            HookKind::Remove => self.on_remove,
            HookKind::Despawn => self.on_despawn,
        }
    }

    /// No hooks at all, as mathematics.
    pub open spec fn none_spec() -> Self {
        ComponentHooks {
            on_add: None,
            on_insert: None,
            on_replace: None,
            on_remove: None,
            on_despawn: None,
        }
    }

    /// No hooks at all.
    pub fn none() -> (hooks: Self)
        ensures
            hooks == Self::none_spec(),
    {
        ComponentHooks {
            on_add: None,
            on_insert: None,
            on_replace: None,
            on_remove: None,
            on_despawn: None,
        }
    }

    /// The hooks in the order of the registration call: add, insert,
    /// replace, remove, despawn.
    pub fn from_array(hook_fns: [Option<usize>; 5]) -> (hooks: Self)
        ensures
            hooks.on_add == hook_fns[0],
            hooks.on_insert == hook_fns[1],
            hooks.on_replace == hook_fns[2],
            hooks.on_remove == hook_fns[3],
            hooks.on_despawn == hook_fns[4],
    {
        ComponentHooks {
            on_add: hook_fns[0],
            on_insert: hook_fns[1],
            on_replace: hook_fns[2],
            on_remove: hook_fns[3],
            on_despawn: hook_fns[4],
        }
    }

    /// The hook of the given kind.
    pub fn get(&self, kind: HookKind) -> (hook: Option<usize>)
        ensures
            hook == self.hook(kind),
    {
        match kind {
            HookKind::Add => self.on_add,
            HookKind::Insert => self.on_insert,
            HookKind::Replace => self.on_replace,
            HookKind::Remove => self.on_remove,
            HookKind::Despawn => self.on_despawn,
        }
    }
}

/// What a hook is told: the entity and the component the transition is
/// about, and the place in the guest's code that caused it, where known.
#[derive(Clone, Copy, Debug, PartialEq, Eq, Structural)]
pub struct HookContext {
    pub entity: crate::entity::Entity,
    pub component_id: ComponentId,
    pub caller: Option<u64>,
}

/// One hook that is due: the function to call, the transition it answers,
/// and what it is told. The caller runs it at once, with a deferred view of
/// the world that lives as long as the call.
#[derive(Clone, Copy, Debug, PartialEq, Eq, Structural)]
pub struct HookCall {
    pub function: usize,
    pub kind: HookKind,
    pub context: HookContext,
}

} // verus!
