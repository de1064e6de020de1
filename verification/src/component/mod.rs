mod component;
mod component_bundle;
mod component_manager;

pub use self::component::Component;
pub use self::component_bundle::ComponentBundle;
pub use self::component_manager::ComponentManager;
