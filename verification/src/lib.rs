//! A safe, verified client API for a document-oriented embedded data store.
//!
//! The library models the session layer of an embedded document database:
//! a `Database` owns a set of named records, a `Document` is a mutable
//! property bag with a revision sequence number, a `Query` is a compiled
//! selection over the stored documents, and a `ResultSet` is a forward-only
//! cursor over the rows a query produced.  A `Replicator` holds the
//! configuration and lifecycle state of a background synchronisation task.
//!
//! Property values are plain strings; a document serialises to the JSON
//! object text `{"key":"value",...}` in insertion order, with `"` and `\`
//! escaped.  Every operation's effect on the store is stated in its
//! contract over ghost models of the types, and proved.

pub mod database;
pub mod document;
pub mod errors;
pub mod json;
pub mod model;
pub mod query;
pub mod replicator;
pub mod resultset;
pub mod text;

pub use database::BatchOp;
pub use database::BatchOutcome;
pub use database::Database;
pub use document::Document;
pub use errors::init_error;
pub use model::Person;
pub use query::Query;
pub use replicator::Authenticator;
pub use replicator::Replicator;
pub use replicator::ReplicatorState;
pub use resultset::ColumnValue;
pub use resultset::ResultSet;
pub use errors::CouchbaseLiteError;
pub use errors::EngineError;
