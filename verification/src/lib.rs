//! An embeddable, in-process document store: named collections with pluggable
//! identity generation, optional per-document expiration, uniqueness
//! constraints, and a chainable predicate query/join engine.

pub mod config;
pub mod db;
pub mod error;
pub mod ids;
pub mod query;
pub mod subscription;
pub mod value;

pub use config::CollectionConfig;
pub use config::KeyType;
pub use config::TTL;
pub use db::Collection;
pub use db::CollectionBuilder;
pub use db::InMemoryDB;
pub use db::OperationResult;
pub use error::StoreError;
pub use query::JoinBuilder;
pub use query::QueryBuilder;
pub use subscription::EventType;
pub use value::Value;

