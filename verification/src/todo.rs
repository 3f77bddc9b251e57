//! The todo record and its mathematical model.

use vstd::prelude::*;

verus! {

/// The identifier of a record: from one up, in the order of creation.
pub type TodoId = u64;

/// The mathematical value of a todo record.
pub struct TodoModel {
    pub id: nat,
    pub desc: Seq<char>,
    pub completed: bool,
}

impl TodoModel {
    /// The record as it is created: not completed.
    pub open spec fn fresh(id: nat, desc: Seq<char>) -> TodoModel {
        TodoModel { id, desc, completed: false }
    }

    /// The record after a partial update: a field that is supplied replaces
    /// the old one, a field that is omitted stays. The identifier never
    /// changes.
    pub open spec fn patched(
        self,
        new_desc: Option<Seq<char>>,
        new_completed: Option<bool>,
    ) -> TodoModel {
        TodoModel {
            id: self.id,
            desc: match new_desc {
                Some(desc) => desc,
                None => self.desc,
            },
            completed: match new_completed {
                Some(completed) => completed,
                None => self.completed,
            },
        }
    }
}

/// A short text record held by the store.
#[derive(Debug, PartialEq, Eq)]
pub struct Todo {
    pub id: TodoId,
    pub desc: String,
    pub completed: bool,
}

impl View for Todo {
    type V = TodoModel;

    open spec fn view(&self) -> TodoModel {
        TodoModel { id: self.id as nat, desc: self.desc@, completed: self.completed }
    }
}

impl Default for Todo {
    /// A record that no store holds: identifier zero, no text, not
    /// completed.
    fn default() -> (todo: Self)
        ensures
            todo@ == TodoModel::fresh(0, Seq::empty()),
    {
        Todo { id: 0, desc: String::new(), completed: false }
    }
}

impl Clone for Todo {
    fn clone(&self) -> (copy: Self)
        ensures
            copy == *self,
    {
        Todo { id: self.id, desc: self.desc.clone(), completed: self.completed }
    }
}

/// The text that an optional description stands for.
pub open spec fn text_of(desc: Option<String>) -> Option<Seq<char>> {
    match desc {
        Some(text) => Some(text@),
        None => None,
    }
}

/// The models of a sequence of records, in the same order.
pub open spec fn models_of(todos: Seq<Todo>) -> Seq<TodoModel> {
    Seq::new(todos.len(), |i: int| todos[i]@)
}

} // verus!
