//! The store: records kept by ascending identifier, and the counter from
//! which identifiers are minted.

use crate::laws::law_listing;
use crate::lemmas::{
    lemma_ascending_distinct, lemma_ascending_unique, lemma_mapping_at, lemma_mapping_entry,
    lemma_mapping_insert, lemma_mapping_push, lemma_mapping_remove, lemma_mapping_update,
};
use crate::model::{
    ascending, faulty_at, first_fault, holds_id, mapping_of, position_of, restorable, StoreModel,
    LATEST_LIMIT,
};
use crate::persist::{PersistenceFailure, RestoreError, Snapshot};
use crate::status::Status;
use crate::todo::{models_of, text_of, Todo, TodoId, TodoModel};
use vstd::prelude::*;

verus! {

/// The first position in `todos` whose identifier is not below `id`; the
/// length if there is none.
fn lower_bound(todos: &Vec<Todo>, id: TodoId) -> (k: usize)
    requires
        ascending(models_of(todos@)),
    ensures
        k <= todos@.len(),
        forall|i: int| 0 <= i < k ==> (#[trigger] todos@[i]).id < id,
        forall|i: int| k <= i < todos@.len() ==> (#[trigger] todos@[i]).id >= id,
{
    let ghost records = models_of(todos@);
    let mut lo: usize = 0;
    let mut hi: usize = todos.len();
    while lo < hi
        invariant
            lo <= hi <= todos@.len(),
            records == models_of(todos@),
            ascending(records),
            forall|i: int| 0 <= i < lo ==> (#[trigger] todos@[i]).id < id,
            forall|i: int| hi <= i < todos@.len() ==> (#[trigger] todos@[i]).id >= id,
        decreases hi - lo,
    {
        let mid: usize = lo + (hi - lo) / 2;
        if todos[mid].id < id {
            assert forall|i: int| 0 <= i < mid + 1 implies (#[trigger] todos@[i]).id < id by {
                if i < mid {
                    assert(records[i].id < records[mid as int].id);
                }
            }
            lo = mid + 1;
        } else {
            assert forall|i: int| mid <= i < todos@.len() implies (#[trigger] todos@[i]).id
                >= id by {
                if mid < i {
                    assert(records[mid as int].id < records[i].id);
                }
            }
            hi = mid;
        }
    }
    lo
}

/// A collection of todo records and the allocator of their identifiers.
pub struct TodoStore {
    todos: Vec<Todo>,
    last_id: TodoId,
}

impl View for TodoStore {
    type V = StoreModel;

    closed spec fn view(&self) -> StoreModel {
        StoreModel { todos: mapping_of(models_of(self.todos@)), last_id: self.last_id as nat }
    }
}

impl TodoStore {
    /// The representation invariant: the records stand by strictly
    /// ascending identifier, from one up to the counter.
    #[verifier::type_invariant]
    spec fn wf(&self) -> bool {
        &&& ascending(models_of(self.todos@))
        &&& forall|i: int|
            0 <= i < self.todos@.len() ==> 1 <= (#[trigger] self.todos@[i]).id <= self.last_id
    }

    /// A store in its representation invariant has a valid model.
    proof fn lemma_valid(&self)
        requires
            self.wf(),
        ensures
            self@.wf(),
    {
        let records = models_of(self.todos@);
        lemma_ascending_distinct(records);
        assert forall|id: nat| #[trigger] self@.todos.contains_key(id) implies 1 <= id
            <= self@.last_id && self@.todos[id].id == id by {
            lemma_mapping_entry(records, id);
            let p = position_of(records, id);
            assert(1 <= self.todos@[p].id <= self.last_id);
        }
    }

    /// The listing of the model is the records as they stand.
    proof fn lemma_listing(&self)
        requires
            self.wf(),
        ensures
            self@.listing() == models_of(self.todos@),
    {
        self.lemma_valid();
        law_listing(self@);
        lemma_ascending_unique(self@.listing(), models_of(self.todos@));
    }

    /// An empty store that has issued no identifier.
    pub fn new() -> (store: TodoStore)
        ensures
            store@ == StoreModel::empty(),
    {
        let store = TodoStore { todos: Vec::new(), last_id: 0 };
        assert(store@.todos =~= Map::<nat, TodoModel>::empty());
        store
    }

    /// Resets the store: no record, no identifier issued.
    pub fn init(&mut self)
        ensures
            final(self)@ == StoreModel::empty(),
    {
        self.todos = Vec::new();
        self.last_id = 0;
        assert(self@.todos =~= Map::<nat, TodoModel>::empty());
    }

    /// The identifier that was issued last; zero if none was.
    pub fn last_id(&self) -> (id: TodoId)
        ensures
            self@.wf(),
            id == self@.last_id,
    {
        proof {
            use_type_invariant(self);
            self.lemma_valid();
        }
        self.last_id
    }

    /// The number of records.
    pub fn len(&self) -> (n: usize)
        ensures
            self@.wf(),
            n == self@.count(),
    {
        proof {
            use_type_invariant(self);
            self.lemma_valid();
            self.lemma_listing();
        }
        self.todos.len()
    }

    /// Moves the records out and leaves none behind, so that they can be
    /// changed apart from the store and then put back.
    fn take_todos(&mut self) -> (todos: Vec<Todo>)
        ensures
            todos == old(self).todos,
            final(self).todos@.len() == 0,
            final(self).last_id == old(self).last_id,
    {
        let mut todos: Vec<Todo> = Vec::new();
        std::mem::swap(&mut todos, &mut self.todos);
        todos
    }

    /// The position of the record `id`, if the store holds it.
    fn position(&self, id: TodoId) -> (found: Option<usize>)
        ensures
            match found {
                Some(k) => k < self.todos@.len() && self.todos@[k as int].id == id,
                None => !self@.contains(id as nat),
            },
            found is Some <==> self@.contains(id as nat),
    {
        proof {
            use_type_invariant(self);
        }
        let ghost records = models_of(self.todos@);
        let k: usize = lower_bound(&self.todos, id);
        if k < self.todos.len() && self.todos[k].id == id {
            assert(records[k as int].id == id);
            assert(holds_id(records, id as nat));
            Some(k)
        } else {
            proof {
                if holds_id(records, id as nat) {
                    let p = position_of(records, id as nat);
                    assert(self.todos@[p].id == id);
                    if p > k {
                        assert(records[k as int].id < records[p].id);
                    }
                }
            }
            None
        }
    }

    /// Creates a record with the text `desc`, not completed, under the next
    /// identifier, and returns that identifier. The store must not have
    /// issued `u64::MAX` yet; `try_create_todo` asks nothing.
    pub fn create_todo(&mut self, desc: String) -> (id: TodoId)
        requires
            old(self)@.last_id < u64::MAX,
        ensures
            final(self)@.wf(),
            id == old(self)@.next_id(),
            final(self)@ == old(self)@.create(desc@),
    {
        proof {
            use_type_invariant(&*self);
            self.lemma_valid();
        }
        let ghost before = models_of(self.todos@);
        let id: TodoId = self.last_id + 1;
        let todo = Todo { id, desc, completed: false };
        proof {
            lemma_ascending_distinct(before);
            if holds_id(before, id as nat) {
                let p = position_of(before, id as nat);
                assert(self.todos@[p].id <= self.last_id);
            }
            lemma_mapping_push(before, todo@);
        }
        let mut todos = self.take_todos();
        todos.push(todo);
        self.last_id = id;
        proof {
            let after = models_of(todos@);
            assert(after =~= before.push(todo@));
            assert forall|i: int, j: int| 0 <= i < j < after.len() implies after[i].id
                < after[j].id by {
                if j < before.len() {
                    assert(before[i].id < before[j].id);
                } else {
                    assert(old(self).todos@[i].id <= old(self).last_id);
                }
            }
            assert forall|i: int| 0 <= i < todos@.len() implies 1 <= (#[trigger] todos@[i]).id
                <= id by {
                if i < before.len() {
                    assert(1 <= old(self).todos@[i].id <= old(self).last_id);
                }
            }
        }
        self.todos = todos;
        assert(self@.todos =~= old(self)@.create(desc@).todos);
        id
    }

    /// Creates a record as `create_todo` does, unless every identifier has
    /// been issued: then nothing changes and nothing is returned.
    pub fn try_create_todo(&mut self, desc: String) -> (created: Option<TodoId>)
        ensures
            final(self)@.wf(),
            old(self)@.last_id < u64::MAX ==> created == Some(old(self)@.next_id() as u64)
                && final(self)@ == old(self)@.create(desc@),
            old(self)@.last_id >= u64::MAX ==> created is None && final(self)@ == old(self)@,
    {
        if self.last_id() < u64::MAX {
            Some(self.create_todo(desc))
        } else {
            None
        }
    }

    /// Applies to the record `id` the fields that are supplied and leaves
    /// the others as they are. With no such record nothing changes.
    pub fn update_todo(
        &mut self,
        id: TodoId,
        new_desc: Option<String>,
        new_completed: Option<bool>,
    ) -> (status: Status)
        ensures
            final(self)@.wf(),
            final(self)@ == old(self)@.update(id as nat, text_of(new_desc), new_completed),
            status == if old(self)@.contains(id as nat) {
                Status::Updated
            } else {
                Status::NotFound
            },
    {
        proof {
            use_type_invariant(&*self);
            self.lemma_valid();
        }
        let ghost before = models_of(self.todos@);
        match self.position(id) {
            None => Status::NotFound,
            Some(k) => {
                let mut todos = self.take_todos();
                if let Some(desc) = new_desc {
                    todos[k].desc = desc;
                }
                if let Some(completed) = new_completed {
                    todos[k].completed = completed;
                }
                proof {
                    let after = models_of(todos@);
                    let patched = before[k as int].patched(text_of(new_desc), new_completed);
                    lemma_ascending_distinct(before);
                    lemma_mapping_at(before, k as int);
                    lemma_mapping_update(before, k as int, patched);
                    assert(after =~= before.update(k as int, patched));
                    assert forall|i: int, j: int| 0 <= i < j < after.len() implies after[i].id
                        < after[j].id by {
                        assert(before[i].id < before[j].id);
                    }
                    assert forall|i: int| 0 <= i < todos@.len() implies 1 <= (
                    #[trigger] todos@[i]).id <= self.last_id by {
                        assert(1 <= old(self).todos@[i].id <= old(self).last_id);
                    }
                }
                self.todos = todos;
                Status::Updated
            },
        }
    }

    /// Removes the record `id`. With no such record nothing changes.
    pub fn delete_todo(&mut self, id: TodoId) -> (status: Status)
        ensures
            final(self)@.wf(),
            final(self)@ == old(self)@.delete(id as nat),
            status == if old(self)@.contains(id as nat) {
                Status::Deleted
            } else {
                Status::NotFound
            },
    {
        proof {
            use_type_invariant(&*self);
            self.lemma_valid();
        }
        let ghost before = models_of(self.todos@);
        match self.position(id) {
            None => Status::NotFound,
            Some(k) => {
                let mut todos = self.take_todos();
                todos.remove(k);
                proof {
                    let after = models_of(todos@);
                    lemma_ascending_distinct(before);
                    lemma_mapping_at(before, k as int);
                    lemma_mapping_remove(before, k as int);
                    assert(after =~= before.remove(k as int));
                    assert forall|i: int, j: int| 0 <= i < j < after.len() implies after[i].id
                        < after[j].id by {
                        let oi = if i < k { i } else { i + 1 };
                        let oj = if j < k { j } else { j + 1 };
                        assert(before[oi].id < before[oj].id);
                    }
                    assert forall|i: int| 0 <= i < todos@.len() implies 1 <= (
                    #[trigger] todos@[i]).id <= self.last_id by {
                        let oi = if i < k { i } else { i + 1 };
                        assert(1 <= old(self).todos@[oi].id <= old(self).last_id);
                    }
                }
                self.todos = todos;
                Status::Deleted
            },
        }
    }

    /// Copies of the records at the positions from `start` up to, and
    /// without, `end`, in the order in which they stand.
    fn copy_range(&self, start: usize, end: usize) -> (copies: Vec<Todo>)
        requires
            start <= end <= self.todos@.len(),
        ensures
            copies@ == self.todos@.subrange(start as int, end as int),
    {
        let mut copies: Vec<Todo> = Vec::new();
        let mut i: usize = start;
        while i < end
            invariant
                start <= i <= end <= self.todos@.len(),
                copies@ == self.todos@.subrange(start as int, i as int),
            decreases end - i,
        {
            copies.push(self.todos[i].clone());
            i += 1;
            assert(copies@ =~= self.todos@.subrange(start as int, i as int));
        }
        copies
    }

    /// A copy of every record, by ascending identifier.
    pub fn get_todos(&self) -> (todos: Vec<Todo>)
        ensures
            self@.wf(),
            models_of(todos@) == self@.listing(),
    {
        proof {
            use_type_invariant(self);
            self.lemma_valid();
            self.lemma_listing();
        }
        let todos = self.copy_range(0, self.todos.len());
        assert(todos@ =~= self.todos@);
        todos
    }

    /// A copy of one page of the listing by ascending identifier: the
    /// records at the positions from `page_number * page_size` up to, and
    /// without, `page_number * page_size + page_size`, as far as they exist.
    /// No record is returned where the page starts beyond the last record,
    /// nor where `page_size` is zero.
    pub fn get_paginated_todos(&self, page_number: usize, page_size: usize) -> (todos: Vec<Todo>)
        ensures
            self@.wf(),
            models_of(todos@) == self@.page(page_number as nat, page_size as nat),
    {
        proof {
            use_type_invariant(self);
            self.lemma_valid();
            self.lemma_listing();
        }
        let total: usize = self.todos.len();
        let start: usize = match page_number.checked_mul(page_size) {
            Some(start) => start,
            None => total,
        };
        if start >= total {
            let todos: Vec<Todo> = Vec::new();
            assert(models_of(todos@) =~= Seq::empty());
            return todos;
        }
        let end: usize = if page_size <= total - start {
            start + page_size
        } else {
            total
        };
        let todos = self.copy_range(start, end);
        assert(models_of(todos@) =~= models_of(self.todos@).subrange(start as int, end as int));
        todos
    }

    /// A copy of the records with the highest identifiers, at most
    /// `LATEST_LIMIT` of them, from the highest identifier down.
    pub fn get_latest_todos(&self) -> (todos: Vec<Todo>)
        ensures
            self@.wf(),
            models_of(todos@) == self@.latest(),
    {
        proof {
            use_type_invariant(self);
            self.lemma_valid();
            self.lemma_listing();
        }
        let total: usize = self.todos.len();
        let n: usize = if total <= LATEST_LIMIT {
            total
        } else {
            LATEST_LIMIT
        };
        let mut todos: Vec<Todo> = Vec::new();
        let mut i: usize = 0;
        while i < n
            invariant
                i <= n <= total == self.todos@.len(),
                todos@.len() == i,
                forall|j: int| 0 <= j < i ==> todos@[j] == self.todos@[total - 1 - j],
            decreases n - i,
        {
            todos.push(self.todos[total - 1 - i].clone());
            i += 1;
        }
        assert(models_of(todos@) =~= self@.latest());
        todos
    }

    /// The full state as plain values: a copy of every record, by ascending
    /// identifier, and the counter.
    pub fn snapshot(&self) -> (snapshot: Snapshot)
        ensures
            self@.wf(),
            models_of(snapshot.todos@) == self@.listing(),
            snapshot.last_id == self@.last_id,
    {
        Snapshot { todos: self.get_todos(), last_id: self.last_id }
    }

    /// The store that a persisted copy describes. The records may come in
    /// any order. The counter is the persisted one, raised to the greatest
    /// identifier among the records where that one is greater. A copy in
    /// which a record carries the identifier zero, or an identifier that an
    /// earlier record carries, is refused with the error of the first such
    /// record.
    pub fn restore(snapshot: Snapshot) -> (restored: Result<TodoStore, RestoreError>)
        ensures
            restored is Ok <==> restorable(models_of(snapshot.todos@)),
            match restored {
                Ok(store) => store@.wf() && store@ == StoreModel::restored(
                    models_of(snapshot.todos@),
                    snapshot.last_id as nat,
                ),
                Err(error) => exists|k: int|
                    first_fault(models_of(snapshot.todos@), k) && error == RestoreError::of(
                        #[trigger] snapshot.todos@[k],
                    ),
            },
    {
        let ghost records = models_of(snapshot.todos@);
        let ghost given = snapshot.todos@;
        let mut todos: Vec<Todo> = Vec::new();
        let mut last_id: TodoId = snapshot.last_id;
        proof {
            assert(records.take(0) =~= Seq::empty());
            assert(mapping_of(models_of(todos@)) =~= mapping_of(records.take(0)));
        }
        for todo in it: snapshot.todos.into_iter()
            invariant
                it.seq() == given,
                records == models_of(given),
                ascending(models_of(todos@)),
                forall|i: int| 0 <= i < todos@.len() ==> 1 <= (#[trigger] todos@[i]).id <= last_id,
                restorable(records.take(it.index() as int)),
                mapping_of(models_of(todos@)) == mapping_of(records.take(it.index() as int)),
                last_id == StoreModel::restored(
                    records.take(it.index() as int),
                    snapshot.last_id as nat,
                ).last_id,
                forall|j: int| 0 <= j < it.index() ==> !faulty_at(records, j),
        {
            let ghost k = it.index() as int;
            let ghost seen = records.take(k);
            let ghost held = models_of(todos@);
            let ghost kept = todos@;
            proof {
                assert(todo == given[k]);
                assert(records[k] == todo@);
                assert(records.take(k + 1) =~= seen.push(todo@));
                assert(records.take(k + 1).drop_last() =~= seen);
                lemma_ascending_distinct(held);
            }
            if todo.id == 0 {
                proof {
                    assert(first_fault(records, k));
                    assert(!restorable(records));
                }
                return Err(RestoreError::ZeroId);
            }
            let p: usize = lower_bound(&todos, todo.id);
            if p < todos.len() && todos[p].id == todo.id {
                proof {
                    assert(held[p as int].id == todo.id);
                    assert(holds_id(held, todo.id as nat));
                    assert(mapping_of(seen).contains_key(todo.id as nat));
                    assert(holds_id(seen, todo.id as nat));
                    assert(first_fault(records, k));
                    let q = position_of(seen, todo.id as nat);
                    assert(records[q].id == records[k].id);
                    assert(!restorable(records));
                }
                return Err(RestoreError::DuplicateId { id: todo.id });
            }
            proof {
                if holds_id(held, todo.id as nat) {
                    let q = position_of(held, todo.id as nat);
                    assert(todos@[q].id == todo.id);
                    if q > p {
                        assert(held[p as int].id < held[q].id);
                    }
                }
                assert(!mapping_of(seen).contains_key(todo.id as nat));
                assert(!holds_id(seen, todo.id as nat));
                lemma_mapping_insert(held, p as int, todo@);
                lemma_mapping_push(seen, todo@);
                assert(!faulty_at(records, k));
            }
            if todo.id > last_id {
                last_id = todo.id;
            }
            todos.insert(p, todo);
            proof {
                let grown = models_of(todos@);
                assert(grown =~= held.insert(p as int, todo@));
                assert forall|i: int, j: int| 0 <= i < j < grown.len() implies grown[i].id
                    < grown[j].id by {
                    let oi = if i < p { i } else { i - 1 };
                    let oj = if j < p { j } else { j - 1 };
                    if i == p {
                        assert(held[oj].id >= todo.id);
                    } else if j == p {
                        assert(held[oi].id < todo.id);
                    } else {
                        assert(held[oi].id < held[oj].id);
                    }
                }
                assert forall|i: int| 0 <= i < todos@.len() implies 1 <= (#[trigger] todos@[i]).id
                    <= last_id by {
                    if i != p {
                        let oi = if i < p { i } else { i - 1 };
                        assert(todos@[i] == kept[oi]);
                    }
                }
                assert(restorable(records.take(k + 1))) by {
                    assert forall|i: int| 0 <= i < k + 1 implies (#[trigger] records.take(
                        k + 1,
                    )[i]).id >= 1 by {
                        if i < k {
                            assert(seen[i].id >= 1);
                        }
                    }
                }
            }
        }
        proof {
            assert(records.take(given.len() as int) =~= records);
        }
        let store = TodoStore { todos, last_id };
        proof {
            store.lemma_valid();
        }
        Ok(store)
    }

    /// Concludes a mutating call whose durable commit was attempted:
    /// commit or abort. Where the commit succeeded the store stays as the
    /// call left it. Where it failed the store goes back to `prior`, its
    /// state before the call, and the failure is reported.
    pub fn commit_or_abort(&mut self, prior: TodoStore, committed: bool) -> (outcome: Result<
        (),
        PersistenceFailure,
    >)
        ensures
            final(self)@.wf(),
            committed ==> outcome is Ok && final(self)@ == old(self)@,
            !committed ==> outcome is Err && final(self)@ == prior@,
    {
        if committed {
            proof {
                use_type_invariant(&*self);
                self.lemma_valid();
            }
            Ok(())
        } else {
            proof {
                use_type_invariant(&prior);
                prior.lemma_valid();
            }
            *self = prior;
            Err(PersistenceFailure)
        }
    }
}

impl Clone for TodoStore {
    /// A copy that shares nothing with the store.
    fn clone(&self) -> (copy: Self)
        ensures
            copy@.wf(),
            copy@ == self@,
    {
        proof {
            use_type_invariant(self);
            self.lemma_valid();
        }
        let todos = self.todos.clone();
        assert(todos@ =~= self.todos@);
        TodoStore { todos, last_id: self.last_id }
    }
}

} // verus!
