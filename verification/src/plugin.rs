//! Guest libraries that come and go while the host runs: which library
//! file belongs to which entity, and what to load and unload when a file
//! appears, changes or disappears.
//!
//! Reading files and mapping libraries into memory is the caller's part.
//! What is decided here is what the caller has to do, and in which order.
use crate::bridge::{QueryTables, QueryTablesView, SystemTables, SystemTablesView};
use crate::entity::Entity;
use crate::registry::{
    owned_below,
    resources_owned_below,
    LibraryId,
    SharedRegistry,
    Unloaded,
};
use crate::world::{World, WorldView};
use vstd::prelude::*;

verus! {

/// The number by which the host's asset store knows a library file.
#[derive(Clone, Copy, Debug, PartialEq, Eq, Structural)]
pub struct AssetId {
    pub id: u64,
}

/// A library file as an asset: where it lies is the asset store's
/// knowledge, the bridge goes by the number.
#[derive(Clone, Copy, Debug, PartialEq, Eq, Structural)]
pub struct DynamicPlugin {
    pub asset: AssetId,
}

/// What an entity that stands for a guest library carries: the asset of
/// the library file, and the library loaded from it, if one is.
#[derive(Clone, Copy, Debug, PartialEq, Eq, Structural)]
pub struct DynamicPluginHandle {
    pub handle: AssetId,
    pub loaded: Option<LibraryId>,
}

/// An entity that stands for a guest library, with what it carries.
#[derive(Clone, Copy, Debug, PartialEq, Eq, Structural)]
pub struct PluginEntity {
    pub entity: Entity,
    pub plugin: DynamicPluginHandle,
}

/// What the asset store reports about a library file.
#[derive(Clone, Copy, Debug, PartialEq, Eq, Structural)]
pub enum AssetEvent {
    /// The file changed.
    Modified { id: AssetId },
    /// The file is gone.
    Removed { id: AssetId },
    /// Anything else; nothing follows from it.
    Other,
}

/// What the caller has to do.
#[derive(Clone, Copy, Debug, PartialEq, Eq, Structural)]
pub enum PluginCommand {
    /// Load the library file `asset` and note the loaded library on
    /// `entity`.
    Load { entity: Entity, asset: AssetId },
    /// Unload the library `library`.
    Unload { library: LibraryId },
}

/// Why a library could not be loaded.
#[derive(Clone, Copy, Debug, PartialEq, Eq, Structural)]
pub enum DynamicPluginLoaderError {
    /// The asset store does not know where the file lies.
    NoPath,
}

impl DynamicPluginLoaderError {
    /// The error in words.
    pub fn message(&self) -> (text: &'static str)
        ensures
            text@ == "Failed to get asset path"@,
    {
        "Failed to get asset path"
    }
}

/// A guest library that is loaded.
#[derive(Clone, Copy, Debug, PartialEq, Eq, Structural)]
pub struct LoadedLibrary {
    pub id: LibraryId,
}

impl LoadedLibrary {
    /// The loaded library of the given number.
    pub fn new(id: LibraryId) -> (library: Self)
        ensures
            library.id == id,
    {
        LoadedLibrary { id }
    }

    /// Takes everything the library owns out of `registry` and answers
    /// with what is left to undo in the world.
    pub fn unload(self, registry: &mut SharedRegistry) -> (unloaded: Unloaded)
        requires
            old(registry).wf(),
        ensures
            final(registry).wf(),
            final(registry)@ == old(registry)@.unload(self.id),
            unloaded.observers@ == crate::registry::owned_below(
                old(registry)@.observers,
                self.id,
                old(registry)@.observers.len(),
            ),
            unloaded.resources@ == crate::registry::resources_owned_below(
                old(registry)@.resources,
                self.id,
                old(registry)@.resources.len(),
            ),
    {
        registry.unload_library(self.id)
    }
}

/// Starts the loading of a library: gives it its number and says in
/// `registry` that it is the one loading now, so that what its entry point
/// adds belongs to it. `None`, and no change, when the numbers have run
/// out.
pub fn begin_library_load(registry: &mut SharedRegistry) -> (r: Option<LibraryId>)
    requires
        old(registry).wf(),
    ensures
        final(registry).wf(),
        match r {
            Some(library) => {
                &&& old(registry)@.next_library < u64::MAX
                &&& library.id == old(registry)@.next_library
                &&& final(registry)@ == (crate::registry::RegistryView {
                    next_library: old(registry)@.next_library + 1,
                    current_library: Some(library),
                    ..old(registry)@
                })
            },
            None => old(registry)@.next_library == u64::MAX && final(registry)@ == old(registry)@,
        },
{
    match registry.new_library_id() {
        Some(library) => {
            registry.set_current_library(Some(library));
            Some(library)
        },
        None => None,
    }
}

/// Ends the loading of a library after its entry point returned: no
/// library is loading now.
pub fn finish_library_load(registry: &mut SharedRegistry, library: LibraryId) -> (loaded:
    LoadedLibrary)
    requires
        old(registry).wf(),
    ensures
        final(registry).wf(),
        loaded.id == library,
        final(registry)@ == (crate::registry::RegistryView {
            current_library: None,
            ..old(registry)@
        }),
{
    registry.set_current_library(None);
    LoadedLibrary::new(library)
}

/// The tag under which the host's tables note what a library makes: zero
/// for what the host makes while no library is loading, and the library's
/// number plus one otherwise.
pub open spec fn owner_tag(library: Option<LibraryId>) -> u64 {
    match library {
        Some(library) => if library.id < u64::MAX {
            (library.id + 1) as u64
        } else {
            u64::MAX
        },
        None => 0,
    }
}

/// The tag under which the host's tables note what `library` makes.
pub fn library_owner(library: Option<LibraryId>) -> (tag: u64)
    ensures
        tag == owner_tag(library),
{
    match library {
        Some(library) => if library.id < u64::MAX {
            library.id + 1
        } else {
            u64::MAX
        },
        None => 0,
    }
}

/// Unloads a library: its observers leave the registry, the resources it
/// brought leave the world, and every handle it holds in the tables is
/// destroyed, so that nothing is left that reaches into its code or that
/// its code could reach with. What belongs to other libraries, or to the
/// host, stays as it is. The answer names the observers and resources that
/// left.
pub fn unload_library(
    library: LoadedLibrary,
    registry: &mut SharedRegistry,
    world: &mut World,
    queries: &mut QueryTables,
    systems: &mut SystemTables,
) -> (unloaded: Unloaded)
    requires
        old(registry).wf(),
        old(world).wf(),
        old(queries).wf(),
        old(systems).wf(),
    ensures
        final(registry).wf(),
        final(world).wf(),
        final(queries).wf(),
        final(systems).wf(),
        final(registry)@ == old(registry)@.unload(library.id),
        unloaded.observers@ == owned_below(
            old(registry)@.observers,
            library.id,
            old(registry)@.observers.len(),
        ),
        unloaded.resources@ == resources_owned_below(
            old(registry)@.resources,
            library.id,
            old(registry)@.resources.len(),
        ),
        final(world)@ == (WorldView {
            resources: old(world)@.resources.remove_keys(unloaded.resources@.to_set()),
            ..old(world)@
        }),
        final(queries)@ == (QueryTablesView {
            builders: old(queries)@.builders.purge(owner_tag(Some(library.id))),
            states: old(queries)@.states.purge(owner_tag(Some(library.id))),
            iters: old(queries)@.iters.purge(owner_tag(Some(library.id))),
            views: old(queries)@.views.purge(owner_tag(Some(library.id))),
        }),
        final(systems)@ == (SystemTablesView {
            param_builders: old(systems)@.param_builders.purge(owner_tag(Some(library.id))),
            systems: old(systems)@.systems.purge(owner_tag(Some(library.id))),
            params: old(systems)@.params.purge(owner_tag(Some(library.id))),
        }),
{
    let unloaded = library.unload(registry);
    let owner = library_owner(Some(library.id));
    queries.purge(owner);
    systems.purge(owner);
    let mut i: usize = 0;
    while i < unloaded.resources.len()
        invariant
            i <= unloaded.resources.len(),
            world.wf(),
            world@ == (WorldView {
                resources: old(world)@.resources.remove_keys(
                    unloaded.resources@.take(i as int).to_set(),
                ),
                ..old(world)@
            }),
        decreases unloaded.resources.len() - i,
    {
        let id = unloaded.resources[i];
        let _ = world.remove_resource(id);
        proof {
            let done = unloaded.resources@.take(i as int);
            let next = unloaded.resources@.take(i + 1);
            assert(next =~= done.push(id));
            assert forall|k: crate::component::ComponentId| next.to_set().contains(k) <==> (
            done.to_set().contains(k) || k == id) by {
                if done.contains(k) {
                    let j = choose|j: int| 0 <= j < done.len() && done[j] == k;
                    assert(next[j] == k);
                }
                if k == id {
                    assert(next[i as int] == id);
                }
                if next.contains(k) {
                    let j = choose|j: int| 0 <= j < next.len() && next[j] == k;
                    if j < i {
                        assert(done[j] == k);
                        assert(done.contains(k));
                    }
                }
            }
            assert(world@.resources =~= old(world)@.resources.remove_keys(next.to_set()));
        }
        i += 1;
    }
    assert(unloaded.resources@.take(unloaded.resources.len() as int) =~= unloaded.resources@);
    unloaded
}

/// Remembers which entity stands for which library file.
pub struct DynamicPlugins {
    asset_to_entity: Vec<(AssetId, Entity)>,
}

impl DynamicPlugins {
    /// No asset is noted twice.
    pub closed spec fn wf(&self) -> bool {
        forall|i: int, j: int|
            0 <= i < j < self.asset_to_entity.len() ==> (#[trigger] self.asset_to_entity[i]).0 != (
            #[trigger] self.asset_to_entity[j]).0
    }

    spec fn holds(&self, i: int, asset: AssetId) -> bool {
        0 <= i < self.asset_to_entity.len() && self.asset_to_entity[i].0 == asset
    }

    /// The entity noted for each asset.
    pub closed spec fn view(&self) -> Map<AssetId, Entity> {
        Map::new(
            |asset: AssetId| exists|i: int| self.holds(i, asset),
            |asset: AssetId| self.asset_to_entity[choose|i: int| self.holds(i, asset)].1,
        )
    }

    /// Nothing noted.
    pub fn new() -> (plugins: Self)
        ensures
            plugins.wf(),
            plugins@ == Map::<AssetId, Entity>::empty(),
    {
        let plugins = DynamicPlugins { asset_to_entity: Vec::new() };
        assert(plugins@ =~= Map::<AssetId, Entity>::empty());
        plugins
    }

    fn find(&self, asset: AssetId) -> (r: Option<usize>)
        requires
            self.wf(),
        ensures
            match r {
                Some(i) => self.holds(i as int, asset) && self@.dom().contains(asset) && self@[asset]
                    == self.asset_to_entity[i as int].1,
                None => !self@.dom().contains(asset),
            },
    {
        let mut i: usize = 0;
        while i < self.asset_to_entity.len()
            invariant
                i <= self.asset_to_entity.len(),
                self.wf(),
                forall|j: int| 0 <= j < i ==> !self.holds(j, asset),
            decreases self.asset_to_entity.len() - i,
        {
            if self.asset_to_entity[i].0.id == asset.id {
                proof {
                    assert(self.holds(i as int, asset));
                    let j = choose|j: int| self.holds(j, asset);
                    if j < i {
                        assert(self.asset_to_entity[j].0 == self.asset_to_entity[i as int].0);
                    } else if i < j {
                        assert(self.asset_to_entity[i as int].0 == self.asset_to_entity[j].0);
                    }
                }
                return Some(i);
            }
            i += 1;
        }
        None
    }

    /// The entity noted for `asset`.
    pub fn get(&self, asset: AssetId) -> (r: Option<Entity>)
        requires
            self.wf(),
        ensures
            r == (if self@.dom().contains(asset) {
                Some(self@[asset])
            } else {
                None
            }),
    {
        match self.find(asset) {
            Some(i) => Some(self.asset_to_entity[i].1),
            None => None,
        }
    }

    /// Notes `entity` for `asset`, in place of any entity noted before.
    pub fn insert(&mut self, asset: AssetId, entity: Entity)
        requires
            old(self).wf(),
        ensures
            final(self).wf(),
            final(self)@ == old(self)@.insert(asset, entity),
    {
        match self.find(asset) {
            Some(i) => {
                self.asset_to_entity.set(i, (asset, entity));
                proof {
                    assert forall|k: AssetId| #[trigger]
                        final(self)@.dom().contains(k) <==> old(self)@.insert(
                            asset,
                            entity,
                        ).dom().contains(k) by {
                        if final(self)@.dom().contains(k) {
                            let j = choose|j: int| final(self).holds(j, k);
                            if j != i {
                                assert(old(self).holds(j, k));
                            }
                        }
                        if old(self)@.dom().contains(k) {
                            let j = choose|j: int| old(self).holds(j, k);
                            assert(final(self).holds(j, k));
                        }
                        if k == asset {
                            assert(final(self).holds(i as int, k));
                        }
                    }
                    assert forall|k: AssetId| #[trigger]
                        final(self)@.dom().contains(k) implies final(self)@[k] == old(self)@.insert(
                        asset,
                        entity,
                    )[k] by {
                        let j = choose|j: int| final(self).holds(j, k);
                        if k == asset {
                            if j != i {
                                assert(final(self).asset_to_entity[j].0 == final(self).asset_to_entity[i as int].0);
                            }
                        } else {
                            assert(old(self).holds(j, k));
                            let j0 = choose|j0: int| old(self).holds(j0, k);
                            if j0 != j {
                                assert(old(self).asset_to_entity[j0].0 == old(self).asset_to_entity[j].0);
                            }
                        }
                    }
                    assert(final(self)@ =~= old(self)@.insert(asset, entity));
                }
            },
            None => {
                self.asset_to_entity.push((asset, entity));
                proof {
                    let n = old(self).asset_to_entity.len() as int;
                    assert forall|i: int, j: int|
                        0 <= i < j < final(self).asset_to_entity.len() implies (#[trigger] final(self).asset_to_entity[i]).0 != (#[trigger] final(self).asset_to_entity[j]).0 by {
                        if j == n {
                            assert(!old(self).holds(i, asset));
                        }
                    }
                    assert forall|k: AssetId| #[trigger]
                        final(self)@.dom().contains(k) <==> old(self)@.insert(
                            asset,
                            entity,
                        ).dom().contains(k) by {
                        if final(self)@.dom().contains(k) {
                            let j = choose|j: int| final(self).holds(j, k);
                            if j != n {
                                assert(old(self).holds(j, k));
                            }
                        }
                        if old(self)@.dom().contains(k) {
                            let j = choose|j: int| old(self).holds(j, k);
                            assert(final(self).holds(j, k));
                        }
                        if k == asset {
                            assert(final(self).holds(n, k));
                        }
                    }
                    assert forall|k: AssetId| #[trigger]
                        final(self)@.dom().contains(k) implies final(self)@[k] == old(self)@.insert(
                        asset,
                        entity,
                    )[k] by {
                        let j = choose|j: int| final(self).holds(j, k);
                        if k == asset {
                            if j != n {
                                assert(old(self).holds(j, k));
                            }
                        } else {
                            assert(old(self).holds(j, k));
                            let j0 = choose|j0: int| old(self).holds(j0, k);
                            if j0 != j {
                                assert(old(self).asset_to_entity[j0].0 == old(self).asset_to_entity[j].0);
                            }
                        }
                    }
                    assert(final(self)@ =~= old(self)@.insert(asset, entity));
                }
            },
        }
    }

    /// Forgets `asset` and answers with the entity that was noted for it.
    pub fn remove(&mut self, asset: AssetId) -> (r: Option<Entity>)
        requires
            old(self).wf(),
        ensures
            final(self).wf(),
            r == (if old(self)@.dom().contains(asset) {
                Some(old(self)@[asset])
            } else {
                None
            }),
            final(self)@ == old(self)@.remove(asset),
    {
        match self.find(asset) {
            Some(i) => {
                let (_, entity) = self.asset_to_entity.remove(i);
                proof {
                    assert forall|a: int, b: int|
                        0 <= a < b < final(self).asset_to_entity.len() implies (#[trigger] final(self).asset_to_entity[a]).0 != (#[trigger] final(self).asset_to_entity[b]).0 by {
                        let a0 = if a < i { a } else { a + 1 };
                        let b0 = if b < i { b } else { b + 1 };
                        assert(final(self).asset_to_entity[a] == old(self).asset_to_entity[a0]);
                        assert(final(self).asset_to_entity[b] == old(self).asset_to_entity[b0]);
                    }
                    assert forall|k: AssetId| #[trigger]
                        final(self)@.dom().contains(k) <==> old(self)@.remove(
                            asset,
                        ).dom().contains(k) by {
                        if final(self)@.dom().contains(k) {
                            let j = choose|j: int| final(self).holds(j, k);
                            let j0 = if j < i { j } else { j + 1 };
                            assert(old(self).holds(j0, k));
                            if k == asset {
                                assert(old(self).asset_to_entity[j0].0 == old(self).asset_to_entity[i as int].0);
                            }
                        }
                        if old(self)@.dom().contains(k) && k != asset {
                            let j = choose|j: int| old(self).holds(j, k);
                            let j1 = if j < i { j } else { j - 1 };
                            assert(final(self).holds(j1, k));
                        }
                    }
                    assert forall|k: AssetId| #[trigger]
                        final(self)@.dom().contains(k) implies final(self)@[k] == old(self)@.remove(
                        asset,
                    )[k] by {
                        let j = choose|j: int| final(self).holds(j, k);
                        let j0 = if j < i { j } else { j + 1 };
                        assert(old(self).holds(j0, k));
                        let j1 = choose|j1: int| old(self).holds(j1, k);
                        if j1 != j0 {
                            assert(old(self).asset_to_entity[j1].0 == old(self).asset_to_entity[j0].0);
                        }
                    }
                    assert(final(self)@ =~= old(self)@.remove(asset));
                }
                Some(entity)
            },
            None => {
                assert(final(self)@ =~= old(self)@.remove(asset));
                None
            },
        }
    }
}

/// The position of the first of `plugins` from `from` on that is `entity`.
pub open spec fn plugin_index(plugins: Seq<PluginEntity>, entity: Entity, from: int) -> Option<int>
    decreases plugins.len() - from,
{
    if from < 0 || from >= plugins.len() {
        None
    } else if plugins[from].entity == entity {
        Some(from)
    } else {
        plugin_index(plugins, entity, from + 1)
    }
}

/// The plugins with no library noted on the one at position `i`.
pub open spec fn clear_loaded(plugins: Seq<PluginEntity>, i: int) -> Seq<PluginEntity> {
    plugins.update(
        i,
        PluginEntity {
            plugin: DynamicPluginHandle { loaded: None, ..plugins[i].plugin },
            ..plugins[i]
        },
    )
}

/// What the handlers work on, as mathematics.
pub struct PluginsView {
    pub tracker: Map<AssetId, Entity>,
    pub plugins: Seq<PluginEntity>,
    pub commands: Seq<PluginCommand>,
}

impl PluginsView {
    /// What becomes of the state when the plugin at position `i` is looked
    /// at for loading: where no library is loaded for it and its file is
    /// ready, the file is noted for its entity and a load is due.
    pub open spec fn load_step(self, i: int, ready: Seq<AssetId>) -> Self {
        let plugin = self.plugins[i];
        if plugin.plugin.loaded is None && ready.contains(plugin.plugin.handle) {
            PluginsView {
                tracker: self.tracker.insert(plugin.plugin.handle, plugin.entity),
                commands: self.commands.push(
                    PluginCommand::Load { entity: plugin.entity, asset: plugin.plugin.handle },
                ),
                ..self
            }
        } else {
            self
        }
    }

    /// The state after the first `bound` plugins were looked at for
    /// loading.
    pub open spec fn load_below(self, ready: Seq<AssetId>, bound: nat) -> Self
        decreases bound,
    {
        if bound == 0 {
            self
        } else {
            self.load_below(ready, (bound - 1) as nat).load_step(bound - 1, ready)
        }
    }

    /// The state after the library noted on the plugin of `entity`, if any,
    /// was given up: an unload is due for it.
    pub open spec fn give_up(self, entity: Entity) -> Self {
        match plugin_index(self.plugins, entity, 0) {
            Some(i) => match self.plugins[i].plugin.loaded {
                Some(library) => PluginsView {
                    plugins: clear_loaded(self.plugins, i),
                    commands: self.commands.push(PluginCommand::Unload { library }),
                    ..self
                },
                None => self,
            },
            None => self,
        }
    }

    /// What becomes of the state on one report of the asset store.
    ///
    /// A changed file whose entity still carries a plugin has its library
    /// unloaded, where one is loaded, and loaded anew, where the file is
    /// ready. A file that is gone is forgotten, and its library unloaded
    /// where one is loaded.
    pub open spec fn change_step(self, event: AssetEvent, ready: Seq<AssetId>) -> Self {
        match event {
            AssetEvent::Modified { id } => if self.tracker.dom().contains(id) {
                let entity = self.tracker[id];
                if plugin_index(self.plugins, entity, 0) is Some {
                    let given_up = self.give_up(entity);
                    if ready.contains(id) {
                        PluginsView {
                            commands: given_up.commands.push(
                                PluginCommand::Load { entity, asset: id },
                            ),
                            ..given_up
                        }
                    } else {
                        given_up
                    }
                } else {
                    self
                }
            } else {
                self
            },
            AssetEvent::Removed { id } => if self.tracker.dom().contains(id) {
                let forgotten = PluginsView { tracker: self.tracker.remove(id), ..self };
                forgotten.give_up(self.tracker[id])
            } else {
                self
            },
            AssetEvent::Other => self,
        }
    }

    /// The state after the first `bound` reports.
    pub open spec fn change_below(self, events: Seq<AssetEvent>, ready: Seq<AssetId>, bound: nat) -> Self
        decreases bound,
    {
        if bound == 0 {
            self
        } else {
            self.change_below(events, ready, (bound - 1) as nat).change_step(
                events[bound - 1],
                ready,
            )
        }
    }
}

fn is_ready(ready: &Vec<AssetId>, asset: AssetId) -> (r: bool)
    ensures
        r == ready@.contains(asset),
{
    let mut i: usize = 0;
    while i < ready.len()
        invariant
            i <= ready.len(),
            forall|j: int| 0 <= j < i ==> ready@[j] != asset,
        decreases ready.len() - i,
    {
        if ready[i].id == asset.id {
            return true;
        }
        i += 1;
    }
    false
}

fn find_plugin(plugins: &Vec<PluginEntity>, entity: Entity) -> (r: Option<usize>)
    ensures
        match r {
            Some(i) => plugin_index(plugins@, entity, 0) == Some(i as int) && i < plugins.len(),
            None => plugin_index(plugins@, entity, 0) is None,
        },
{
    let mut i: usize = 0;
    while i < plugins.len()
        invariant
            i <= plugins.len(),
            plugin_index(plugins@, entity, 0) == plugin_index(plugins@, entity, i as int),
        decreases plugins.len() - i,
    {
        if plugins[i].entity.bits == entity.bits {
            return Some(i);
        }
        i += 1;
    }
    None
}

/// Unloads what is loaded for `entity`, if anything is.
fn give_up(plugins: &mut Vec<PluginEntity>, commands: &mut Vec<PluginCommand>, entity: Entity)
    ensures
        (PluginsView { tracker: Map::empty(), plugins: final(plugins)@, commands: final(commands)@ })
            == (PluginsView {
            tracker: Map::empty(),
            plugins: old(plugins)@,
            commands: old(commands)@,
        }).give_up(entity),
{
    match find_plugin(plugins, entity) {
        Some(i) => {
            let plugin = plugins[i];
            match plugin.plugin.loaded {
                Some(library) => {
                    plugins.set(
                        i,
                        PluginEntity {
                            entity: plugin.entity,
                            plugin: DynamicPluginHandle { handle: plugin.plugin.handle, loaded: None },
                        },
                    );
                    commands.push(PluginCommand::Unload { library });
                },
                None => {},
            }
        },
        None => {},
    }
}

/// Looks for guest libraries to load: every plugin without a loaded
/// library whose file is ready has the file noted for its entity, and a
/// load is due for it. The answer lists what is due, in the order of the
/// plugins.
pub fn handle_library_loading(
    tracker: &mut DynamicPlugins,
    plugins: &Vec<PluginEntity>,
    ready: &Vec<AssetId>,
) -> (commands: Vec<PluginCommand>)
    requires
        old(tracker).wf(),
    ensures
        final(tracker).wf(),
        (PluginsView { tracker: final(tracker)@, plugins: plugins@, commands: commands@ })
            == (PluginsView {
            tracker: old(tracker)@,
            plugins: plugins@,
            commands: Seq::empty(),
        }).load_below(ready@, plugins@.len()),
{
    let mut commands: Vec<PluginCommand> = Vec::new();
    let mut i: usize = 0;
    while i < plugins.len()
        invariant
            i <= plugins.len(),
            tracker.wf(),
            (PluginsView { tracker: tracker@, plugins: plugins@, commands: commands@ })
                == (PluginsView {
                tracker: old(tracker)@,
                plugins: plugins@,
                commands: Seq::empty(),
            }).load_below(ready@, i as nat),
        decreases plugins.len() - i,
    {
        let plugin = plugins[i];
        if plugin.plugin.loaded.is_none() && is_ready(ready, plugin.plugin.handle) {
            tracker.insert(plugin.plugin.handle, plugin.entity);
            commands.push(PluginCommand::Load { entity: plugin.entity, asset: plugin.plugin.handle });
        }
        i += 1;
    }
    commands
}

/// Follows the reports of the asset store, one by one: libraries whose
/// file changed are unloaded and loaded anew, libraries whose file is gone
/// are unloaded and forgotten. The answer lists what is due, in the order
/// of the reports; the plugins no longer carry the libraries to unload.
pub fn handle_library_changes(
    tracker: &mut DynamicPlugins,
    plugins: &mut Vec<PluginEntity>,
    events: &Vec<AssetEvent>,
    ready: &Vec<AssetId>,
) -> (commands: Vec<PluginCommand>)
    requires
        old(tracker).wf(),
    ensures
        final(tracker).wf(),
        (PluginsView { tracker: final(tracker)@, plugins: final(plugins)@, commands: commands@ })
            == (PluginsView {
            tracker: old(tracker)@,
            plugins: old(plugins)@,
            commands: Seq::empty(),
        }).change_below(events@, ready@, events@.len()),
{
    let mut commands: Vec<PluginCommand> = Vec::new();
    let mut n: usize = 0;
    while n < events.len()
        invariant
            n <= events.len(),
            tracker.wf(),
            (PluginsView { tracker: tracker@, plugins: plugins@, commands: commands@ })
                == (PluginsView {
                tracker: old(tracker)@,
                plugins: old(plugins)@,
                commands: Seq::empty(),
            }).change_below(events@, ready@, n as nat),
        decreases events.len() - n,
    {
        let ghost before = PluginsView {
            tracker: tracker@,
            plugins: plugins@,
            commands: commands@,
        };
        match events[n] {
            AssetEvent::Modified { id } => {
                match tracker.get(id) {
                    Some(entity) => {
                        if find_plugin(plugins, entity).is_some() {
                            give_up(plugins, &mut commands, entity);
                            if is_ready(ready, id) {
                                commands.push(PluginCommand::Load { entity, asset: id });
                            }
                        }
                    },
                    None => {},
                }
            },
            AssetEvent::Removed { id } => {
                match tracker.remove(id) {
                    Some(entity) => {
                        give_up(plugins, &mut commands, entity);
                    },
                    None => {},
                }
            },
            AssetEvent::Other => {},
        }
        proof {
            let after = PluginsView { tracker: tracker@, plugins: plugins@, commands: commands@ };
            let expected = before.change_step(events@[n as int], ready@);
            assert(after.tracker =~= expected.tracker);
            assert(after.plugins =~= expected.plugins);
            assert(after.commands =~= expected.commands);
        }
        n += 1;
    }
    commands
}

/// Notes on the plugin of `entity` that `library` was loaded for it.
/// `false`, and no change, where no plugin is of that entity.
pub fn mark_loaded(plugins: &mut Vec<PluginEntity>, entity: Entity, library: LoadedLibrary) -> (done:
    bool)
    ensures
        match plugin_index(old(plugins)@, entity, 0) {
            Some(i) => done && final(plugins)@ == old(plugins)@.update(
                i,
                PluginEntity {
                    plugin: DynamicPluginHandle {
                        loaded: Some(library.id),
                        ..old(plugins)@[i].plugin
                    },
                    ..old(plugins)@[i]
                },
            ),
            None => !done && final(plugins)@ == old(plugins)@,
        },
{
    match find_plugin(plugins, entity) {
        Some(i) => {
            let plugin = plugins[i];
            plugins.set(
                i,
                PluginEntity {
                    entity: plugin.entity,
                    plugin: DynamicPluginHandle {
                        handle: plugin.plugin.handle,
                        loaded: Some(library.id),
                    },
                },
            );
            true
        },
        None => false,
    }
}

} // verus!
