mod entity_builder;
mod entity_manager;
pub mod laws;
pub mod model;
mod query;
mod query_cache;

pub use self::entity_builder::EntityBuilder;
pub use self::entity_manager::entity_matches;
pub use self::entity_manager::shape_answers;
pub use self::entity_manager::EntityManager;
pub use self::model::purge_all;
pub use self::model::refresh_all;
pub use self::model::refreshed;
pub use self::model::result_for;
pub use self::model::shape_matches;
pub use self::model::without_entity;
pub use self::model::DirectoryView;
pub use self::model::QueryKey;
pub use self::model::ResultView;
pub use self::query::results_view;
pub use self::query::Query;
pub use self::query::QueryResult;
pub use self::query_cache::copy_results;
pub use self::query_cache::QueryCache;
