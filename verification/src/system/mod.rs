mod system;
mod system_group;
mod system_manager;
mod system_param;

pub use self::system::System;
pub use self::system_group::GroupView;
pub use self::system_group::SystemEntry;
pub use self::system_group::SystemGroup;
pub use self::system_manager::run_shared;
pub use self::system_manager::SystemManager;
pub use self::system_param::SystemParam;
pub use self::system_param::SystemParamAccessor;
