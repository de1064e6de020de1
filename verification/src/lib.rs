//! An entity-component-system core: entities are opaque ids, components are
//! typed values attached to them, and systems are stateless functions that a
//! scheduler runs over the entities that match a query.

pub mod component;
mod engine;
pub mod entity;
pub mod error;
pub mod system;
pub mod util;

pub use self::engine::deregistered_group_is_isolated;
pub use self::engine::registered_ids_grow;
pub use self::engine::Engine;
pub use self::engine::EngineView;
pub use self::error::EcsError;
