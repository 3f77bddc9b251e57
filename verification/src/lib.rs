//! A verified in-memory store of todo records with monotonically assigned
//! identifiers.
//!
//! [`TodoStore`] holds the records and mints their identifiers. What each of
//! its operations does is stated over [`model::StoreModel`], a mapping from
//! identifier to record beside a counter. The module [`laws`] proves what
//! holds of every store and of every series of calls.
//!
//! Identifiers are `u64`: a store issues the identifiers from one up to
//! `u64::MAX`, each once, and then creates no further record. Every listing
//! is by identifier, ascending unless it says otherwise.

pub mod laws;
pub mod lemmas;
pub mod model;
pub mod persist;
pub mod status;
pub mod store;
pub mod todo;

pub use persist::{PersistenceFailure, RestoreError, Snapshot};
pub use status::Status;
pub use store::TodoStore;
pub use todo::{Todo, TodoId};
