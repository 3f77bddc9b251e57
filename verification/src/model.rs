//! The mathematical model of the store: a finite mapping from identifier to
//! record, and the counter from which identifiers are minted.

use crate::todo::TodoModel;
use vstd::prelude::*;

verus! {

/// How many records the latest-first listing returns at most.
pub const LATEST_LIMIT: usize = 10;

/// The abstract state of a store.
#[verifier::ext_equal]
pub struct StoreModel {
    /// The records that are held, by identifier.
    pub todos: Map<nat, TodoModel>,
    /// The identifier that was issued last; zero if none was.
    pub last_id: nat,
}

/// A mutating call, as a value.
pub enum Request {
    Create { desc: Seq<char> },
    Update { id: nat, new_desc: Option<Seq<char>>, new_completed: Option<bool> },
    Delete { id: nat },
}

/// Whether the identifiers of `records` are strictly ascending.
pub open spec fn ascending(records: Seq<TodoModel>) -> bool {
    forall|i: int, j: int| 0 <= i < j < records.len() ==> records[i].id < records[j].id
}

/// Whether no two of `records` share an identifier.
pub open spec fn distinct_ids(records: Seq<TodoModel>) -> bool {
    forall|i: int, j: int|
        0 <= i < records.len() && 0 <= j < records.len() && i != j ==> records[i].id
            != records[j].id
}

/// Whether one of `records` carries `id`.
pub open spec fn holds_id(records: Seq<TodoModel>, id: nat) -> bool {
    exists|i: int| 0 <= i < records.len() && records[i].id == id
}

/// A position in `records` at which `id` stands, if it stands anywhere.
pub open spec fn position_of(records: Seq<TodoModel>, id: nat) -> int {
    choose|i: int| 0 <= i < records.len() && records[i].id == id
}

/// The mapping that `records` describe: each identifier that occurs, to a
/// record that carries it.
pub open spec fn mapping_of(records: Seq<TodoModel>) -> Map<nat, TodoModel> {
    Map::new(|id: nat| holds_id(records, id), |id: nat| records[position_of(records, id)])
}

/// Whether the record at position `k` cannot follow those before it in a
/// store: its identifier is zero, or one of them carries it already.
pub open spec fn faulty_at(records: Seq<TodoModel>, k: int) -> bool {
    records[k].id == 0 || holds_id(records.take(k), records[k].id)
}

/// Whether position `k` is the first at which `records` are faulty.
pub open spec fn first_fault(records: Seq<TodoModel>, k: int) -> bool {
    &&& 0 <= k < records.len()
    &&& faulty_at(records, k)
    &&& forall|j: int| 0 <= j < k ==> !faulty_at(records, j)
}

/// Whether `records` can be the content of a store: no identifier is zero
/// and none occurs twice.
pub open spec fn restorable(records: Seq<TodoModel>) -> bool {
    &&& distinct_ids(records)
    &&& forall|i: int| 0 <= i < records.len() ==> (#[trigger] records[i]).id >= 1
}

/// The greatest identifier among `records`; zero if there is none.
pub open spec fn greatest_id(records: Seq<TodoModel>) -> nat
    decreases records.len(),
{
    if records.len() == 0 {
        0
    } else {
        let rest = greatest_id(records.drop_last());
        if records.last().id > rest {
            records.last().id
        } else {
            rest
        }
    }
}

impl StoreModel {
    /// The state after initialization: no record, no identifier issued.
    pub open spec fn empty() -> StoreModel {
        StoreModel { todos: Map::empty(), last_id: 0 }
    }

    /// Validity: every record is stored under its own identifier, and the
    /// identifiers in use lie from one up to the counter.
    pub open spec fn wf(self) -> bool {
        forall|id: nat| #[trigger]
            self.todos.contains_key(id) ==> 1 <= id <= self.last_id && self.todos[id].id == id
    }

    /// Whether a record with the identifier `id` is held.
    pub open spec fn contains(self, id: nat) -> bool {
        self.todos.contains_key(id)
    }

    /// The identifier that the next creation returns.
    pub open spec fn next_id(self) -> nat {
        self.last_id + 1
    }

    /// The state after a record with text `desc` is created.
    pub open spec fn create(self, desc: Seq<char>) -> StoreModel {
        StoreModel {
            todos: self.todos.insert(self.next_id(), TodoModel::fresh(self.next_id(), desc)),
            last_id: self.next_id(),
        }
    }

    /// The state after a partial update of the record `id`; the same state
    /// if there is no such record.
    pub open spec fn update(
        self,
        id: nat,
        new_desc: Option<Seq<char>>,
        new_completed: Option<bool>,
    ) -> StoreModel {
        if self.contains(id) {
            StoreModel {
                todos: self.todos.insert(id, self.todos[id].patched(new_desc, new_completed)),
                last_id: self.last_id,
            }
        } else {
            self
        }
    }

    /// The state after the record `id` is removed; the same state if there
    /// is no such record.
    pub open spec fn delete(self, id: nat) -> StoreModel {
        if self.contains(id) {
            StoreModel { todos: self.todos.remove(id), last_id: self.last_id }
        } else {
            self
        }
    }

    /// The state after one mutating call.
    pub open spec fn apply(self, request: Request) -> StoreModel {
        match request {
            Request::Create { desc } => self.create(desc),
            Request::Update { id, new_desc, new_completed } => self.update(
                id,
                new_desc,
                new_completed,
            ),
            Request::Delete { id } => self.delete(id),
        }
    }

    /// The state after a series of mutating calls, made in order.
    pub open spec fn run(self, requests: Seq<Request>) -> StoreModel
        decreases requests.len(),
    {
        if requests.len() == 0 {
            self
        } else {
            self.run(requests.drop_last()).apply(requests.last())
        }
    }

    /// The identifier that call `k` of a series of mutating calls returns,
    /// where that call is a creation: the next identifier of the state that
    /// the calls before it leave.
    pub open spec fn issued(self, requests: Seq<Request>, k: int) -> nat {
        self.run(requests.take(k)).next_id()
    }

    /// The records whose identifier is below `bound`, by ascending
    /// identifier.
    pub open spec fn listing_below(self, bound: nat) -> Seq<TodoModel>
        decreases bound,
    {
        if bound == 0 {
            Seq::empty()
        } else {
            let id = (bound - 1) as nat;
            let lower = self.listing_below(id);
            if self.todos.contains_key(id) {
                lower.push(self.todos[id])
            } else {
                lower
            }
        }
    }

    /// All records, by ascending identifier. Every listing of the store is
    /// a part of this one.
    pub open spec fn listing(self) -> Seq<TodoModel> {
        self.listing_below(self.last_id + 1)
    }

    /// The number of records.
    pub open spec fn count(self) -> nat {
        self.listing().len()
    }

    /// Page `page_number` of the listing cut into pages of `page_size`
    /// records: the positions from `page_number * page_size` up to, and
    /// without, `page_number * page_size + page_size`, as far as they exist.
    pub open spec fn page(self, page_number: nat, page_size: nat) -> Seq<TodoModel> {
        let all = self.listing();
        let start = (page_number * page_size) as int;
        let end = if start + page_size as int <= all.len() as int {
            start + page_size as int
        } else {
            all.len() as int
        };
        if start >= all.len() {
            Seq::empty()
        } else {
            all.subrange(start, end)
        }
    }

    /// The records with the highest identifiers, at most `LATEST_LIMIT` of
    /// them, from the highest identifier down.
    pub open spec fn latest(self) -> Seq<TodoModel> {
        let all = self.listing();
        let n = if all.len() <= LATEST_LIMIT {
            all.len()
        } else {
            LATEST_LIMIT as nat
        };
        Seq::new(n, |i: int| all[all.len() - 1 - i])
    }

    /// The state that a persisted copy describes: the records by their
    /// identifiers, and a counter that is neither below the persisted one
    /// nor below any identifier in use.
    pub open spec fn restored(records: Seq<TodoModel>, last_id: nat) -> StoreModel {
        StoreModel {
            todos: mapping_of(records),
            last_id: if greatest_id(records) > last_id {
                greatest_id(records)
            } else {
                last_id
            },
        }
    }
}

} // verus!
