//! The plain values in which a store is persisted, and what can go wrong
//! with them.

use crate::todo::{Todo, TodoId};
use vstd::prelude::*;

verus! {

/// Why a persisted copy cannot be restored.
#[derive(Debug, Clone, Copy, PartialEq, Eq, Structural)]
pub enum RestoreError {
    /// A record carries the identifier zero, which is never issued.
    ZeroId,
    /// A record carries an identifier that an earlier record carries too.
    DuplicateId { id: TodoId },
}

impl RestoreError {
    /// The error that a faulty record gives rise to.
    pub open spec fn of(todo: Todo) -> RestoreError {
        if todo.id == 0 {
            RestoreError::ZeroId
        } else {
            RestoreError::DuplicateId { id: todo.id }
        }
    }
}

/// The durable-commit step could not complete.
#[derive(Debug, Clone, Copy, PartialEq, Eq, Structural)]
pub struct PersistenceFailure;

/// The full state of a store as plain values, as it is persisted.
#[derive(Debug, PartialEq, Eq)]
pub struct Snapshot {
    /// The records.
    pub todos: Vec<Todo>,
    /// The identifier that was issued last.
    pub last_id: TodoId,
}

} // verus!
