mod collect;
mod execution_mode;
mod handle;
mod property_id;

pub use self::collect::lemma_take_next;
pub use self::collect::map_keys;
pub use self::collect::set_members;
pub use self::execution_mode::ExecutionMode;
pub(crate) use self::handle::share_arc;
pub use self::handle::keyed_by_type;
pub use self::handle::Handle;
pub use self::property_id::PropertyId;
