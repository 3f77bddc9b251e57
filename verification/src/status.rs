//! How a call that names a record ended.

use vstd::prelude::*;

verus! {

/// How an update or a removal ended.
#[derive(Debug, Clone, Copy, PartialEq, Eq, Structural)]
pub enum Status {
    /// The record was found and the update applied.
    Updated,
    /// The record was found and removed.
    Deleted,
    /// The store holds no record with that identifier.
    NotFound,
}

impl Status {
    /// The message that reports this status.
    pub open spec fn text(self) -> Seq<char> {
        match self {
            Status::Updated => "Todo item updated successfully"@,
            Status::Deleted => "Todo item deleted successfully"@,
            Status::NotFound => "Todo item not found"@,
        }
    }

    /// Whether the call found its record.
    pub fn is_success(&self) -> (ok: bool)
        ensures
            ok == !(*self is NotFound),
    {
        match self {
            Status::NotFound => false,
            _ => true,
        }
    }

    /// The message that reports this status.
    pub fn message(&self) -> (text: String)
        ensures
            text@ == self.text(),
    {
        match self {
            Status::Updated => "Todo item updated successfully".to_owned(),
            Status::Deleted => "Todo item deleted successfully".to_owned(),
            Status::NotFound => "Todo item not found".to_owned(),
        }
    }
}

} // verus!
