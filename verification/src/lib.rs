//! A bridge between a long-lived host that owns an entity-component world and
//! separately built guest modules that read, change, query and observe it.
//!
//! Nothing crosses the bridge but plain values: numeric ids, byte blobs,
//! type names and generation-checked handles. Every operation states in its
//! contract what it returns and how it changes the world.
#![allow(non_camel_case_types)]

pub mod handle;

pub mod entity;

pub mod component;

pub mod name;

pub mod storage;

pub mod world;

pub mod query;

pub mod system;

pub mod registry;

pub mod plugin;

pub mod host;

pub mod bridge;

pub mod example;

pub use component::{Component, ComponentId, StorageType, TypePath};
pub use entity::Entity;
pub use handle::{Handle, HandleError, HandleTable};
pub use query::{FilteredEntityMut, Query, QueryBuilder, QueryIter, QueryState};
pub use registry::SharedRegistry;
pub use system::{Callback, Commands, DynParam, ParamBuilder, ParamCursor, SystemRef, SystemState};
pub use world::World;
