//! Facts about sequences of records and the mappings they describe.

use crate::model::{
    ascending, distinct_ids, faulty_at, first_fault, greatest_id, holds_id, mapping_of,
    position_of, Request, StoreModel,
};
use crate::todo::TodoModel;
use vstd::prelude::*;

verus! {

/// Strictly ascending identifiers are pairwise distinct.
pub proof fn lemma_ascending_distinct(records: Seq<TodoModel>)
    requires
        ascending(records),
    ensures
        distinct_ids(records),
{
    assert forall|i: int, j: int|
        0 <= i < records.len() && 0 <= j < records.len() && i != j implies records[i].id
        != records[j].id by {
        if i < j {
            assert(records[i].id < records[j].id);
        } else {
            assert(records[j].id < records[i].id);
        }
    }
}

/// With distinct identifiers, the mapping sends each identifier that occurs
/// to the one record that carries it.
pub proof fn lemma_mapping_at(records: Seq<TodoModel>, i: int)
    requires
        distinct_ids(records),
        0 <= i < records.len(),
    ensures
        holds_id(records, records[i].id),
        position_of(records, records[i].id) == i,
        mapping_of(records).contains_key(records[i].id),
        mapping_of(records)[records[i].id] == records[i],
{
    assert(holds_id(records, records[i].id));
}

/// Every entry of the mapping is one of the records.
pub proof fn lemma_mapping_entry(records: Seq<TodoModel>, id: nat)
    requires
        mapping_of(records).contains_key(id),
    ensures
        0 <= position_of(records, id) < records.len(),
        records[position_of(records, id)].id == id,
        mapping_of(records)[id] == records[position_of(records, id)],
{
}

/// Putting a record with an unused identifier at position `k` adds one
/// entry to the mapping.
pub proof fn lemma_mapping_insert(records: Seq<TodoModel>, k: int, todo: TodoModel)
    requires
        distinct_ids(records),
        0 <= k <= records.len(),
        !holds_id(records, todo.id),
    ensures
        distinct_ids(records.insert(k, todo)),
        mapping_of(records.insert(k, todo)) == mapping_of(records).insert(todo.id, todo),
{
    let grown = records.insert(k, todo);
    assert(grown[k] == todo);
    assert forall|i: int| 0 <= i < grown.len() && i != k implies #[trigger] grown[i] == records[if i
        < k {
        i
    } else {
        i - 1
    }] by {}
    let lhs = mapping_of(grown);
    let rhs = mapping_of(records).insert(todo.id, todo);
    assert forall|id: nat| rhs.contains_key(id) implies lhs.contains_key(id) by {
        if id != todo.id {
            let p = position_of(records, id);
            let np = if p < k { p } else { p + 1 };
            assert(grown[np] == records[p]);
        }
    }
    assert forall|id: nat| lhs.contains_key(id) implies rhs.contains_key(id) && lhs[id]
        == rhs[id] by {
        if id == todo.id {
            lemma_mapping_at(grown, k);
        } else {
            let p = position_of(records, id);
            let np = if p < k { p } else { p + 1 };
            lemma_mapping_at(grown, np);
        }
    }
}

/// Appending a record with an unused identifier adds one entry to the
/// mapping.
pub proof fn lemma_mapping_push(records: Seq<TodoModel>, todo: TodoModel)
    requires
        distinct_ids(records),
        !holds_id(records, todo.id),
    ensures
        distinct_ids(records.push(todo)),
        mapping_of(records.push(todo)) == mapping_of(records).insert(todo.id, todo),
{
    assert(records.push(todo) =~= records.insert(records.len() as int, todo));
    lemma_mapping_insert(records, records.len() as int, todo);
}

/// Replacing the record at position `k` by one with the same identifier
/// replaces its entry in the mapping.
pub proof fn lemma_mapping_update(records: Seq<TodoModel>, k: int, todo: TodoModel)
    requires
        distinct_ids(records),
        0 <= k < records.len(),
        todo.id == records[k].id,
    ensures
        distinct_ids(records.update(k, todo)),
        mapping_of(records.update(k, todo)) == mapping_of(records).insert(todo.id, todo),
{
    let changed = records.update(k, todo);
    let lhs = mapping_of(changed);
    let rhs = mapping_of(records).insert(todo.id, todo);
    assert forall|id: nat| rhs.contains_key(id) implies lhs.contains_key(id) by {
        if id == todo.id {
            assert(changed[k].id == id);
        } else {
            assert(changed[position_of(records, id)].id == id);
        }
    }
    assert forall|id: nat| lhs.contains_key(id) implies rhs.contains_key(id) && lhs[id]
        == rhs[id] by {
        if id == todo.id {
            lemma_mapping_at(changed, k);
        } else {
            lemma_mapping_at(changed, position_of(records, id));
        }
    }
}

/// Taking out the record at position `k` takes its entry out of the
/// mapping.
pub proof fn lemma_mapping_remove(records: Seq<TodoModel>, k: int)
    requires
        distinct_ids(records),
        0 <= k < records.len(),
    ensures
        distinct_ids(records.remove(k)),
        !holds_id(records.remove(k), records[k].id),
        mapping_of(records.remove(k)) == mapping_of(records).remove(records[k].id),
{
    let rest = records.remove(k);
    assert forall|i: int| 0 <= i < rest.len() implies #[trigger] rest[i] == records[if i < k {
        i
    } else {
        i + 1
    }] by {}
    let lhs = mapping_of(rest);
    let rhs = mapping_of(records).remove(records[k].id);
    assert forall|id: nat| rhs.contains_key(id) implies lhs.contains_key(id) by {
        let p = position_of(records, id);
        let np = if p < k { p } else { p - 1 };
        assert(rest[np] == records[p]);
    }
    assert forall|id: nat| lhs.contains_key(id) implies rhs.contains_key(id) && lhs[id]
        == rhs[id] by {
        let p = position_of(records, id);
        let np = if p < k { p } else { p - 1 };
        lemma_mapping_at(rest, np);
    }
}

/// No identifier among the records exceeds the greatest one, and the
/// greatest one occurs unless there is no record.
pub proof fn lemma_greatest_id(records: Seq<TodoModel>)
    ensures
        forall|i: int| 0 <= i < records.len() ==> (#[trigger] records[i]).id <= greatest_id(records),
        records.len() > 0 ==> holds_id(records, greatest_id(records)),
        records.len() == 0 ==> greatest_id(records) == 0,
    decreases records.len(),
{
    if records.len() > 0 {
        let front = records.drop_last();
        lemma_greatest_id(front);
        assert forall|i: int| 0 <= i < records.len() implies (#[trigger] records[i]).id
            <= greatest_id(records) by {
            if i < front.len() {
                assert(front[i] == records[i]);
            }
        }
        if front.len() > 0 && records.last().id <= greatest_id(front) {
            let p = position_of(front, greatest_id(front));
            assert(records[p].id == greatest_id(records));
        } else {
            assert(records[records.len() - 1].id == greatest_id(records));
        }
    }
}

/// Two strictly ascending sequences that describe the same mapping are the
/// same sequence.
pub proof fn lemma_ascending_unique(a: Seq<TodoModel>, b: Seq<TodoModel>)
    requires
        ascending(a),
        ascending(b),
        mapping_of(a) == mapping_of(b),
    ensures
        a == b,
    decreases a.len(),
{
    lemma_ascending_distinct(a);
    lemma_ascending_distinct(b);
    if a.len() == 0 {
        if b.len() > 0 {
            lemma_mapping_at(b, 0);
        }
    } else {
        let la = a.len() - 1;
        lemma_mapping_at(a, la);
        lemma_mapping_entry(b, a[la].id);
        let lb = b.len() - 1;
        lemma_mapping_at(b, lb);
        lemma_mapping_entry(a, b[lb].id);
        assert(a[la].id == b[lb].id) by {
            assert(a[position_of(a, b[lb].id)].id <= a[la].id);
            assert(b[position_of(b, a[la].id)].id <= b[lb].id);
        }
        lemma_mapping_remove(a, la);
        lemma_mapping_remove(b, lb);
        assert(a.remove(la) =~= a.drop_last());
        assert(b.remove(lb) =~= b.drop_last());
        lemma_ascending_unique(a.drop_last(), b.drop_last());
        assert(a =~= a.drop_last().push(a[la]));
    }
}

/// The records below a bound are listed by strictly ascending identifier,
/// each as the store holds it, and none is left out.
pub proof fn lemma_listing_below(m: StoreModel, bound: nat)
    requires
        m.wf(),
    ensures
        ascending(m.listing_below(bound)),
        forall|i: int|
            0 <= i < m.listing_below(bound).len() ==> {
                let todo = #[trigger] m.listing_below(bound)[i];
                todo.id < bound && m.todos.contains_key(todo.id) && m.todos[todo.id] == todo
            },
        forall|id: nat|
            id < bound && #[trigger] m.todos.contains_key(id) ==> holds_id(
                m.listing_below(bound),
                id,
            ),
    decreases bound,
{
    if bound > 0 {
        let top = (bound - 1) as nat;
        let lower = m.listing_below(top);
        let all = m.listing_below(bound);
        lemma_listing_below(m, top);
        if m.todos.contains_key(top) {
            assert forall|id: nat| id < bound && #[trigger] m.todos.contains_key(id) implies holds_id(
                all,
                id,
            ) by {
                if id == top {
                    assert(all[lower.len() as int].id == id);
                } else {
                    let p = position_of(lower, id);
                    assert(all[p] == lower[p]);
                }
            }
        }
    }
}

/// The counter after the first `k` calls of a series is not above the
/// counter after all of them.
pub proof fn lemma_run_counter(s: StoreModel, requests: Seq<Request>, k: int)
    requires
        0 <= k <= requests.len(),
    ensures
        s.run(requests.take(k)).last_id <= s.run(requests).last_id,
    decreases requests.len(),
{
    if k == requests.len() {
        assert(requests.take(k) =~= requests);
    } else {
        let front = requests.drop_last();
        assert(front.take(k) =~= requests.take(k));
        lemma_run_counter(s, front, k);
    }
}

/// Two sequences with distinct identifiers that describe the same mapping
/// have the same length.
pub proof fn lemma_same_mapping_same_length(a: Seq<TodoModel>, b: Seq<TodoModel>)
    requires
        distinct_ids(a),
        distinct_ids(b),
        mapping_of(a) == mapping_of(b),
    ensures
        a.len() == b.len(),
    decreases a.len(),
{
    if a.len() == 0 {
        if b.len() > 0 {
            lemma_mapping_at(b, 0);
        }
    } else {
        let la = a.len() - 1;
        lemma_mapping_at(a, la);
        lemma_mapping_entry(b, a[la].id);
        let pb = position_of(b, a[la].id);
        lemma_mapping_remove(a, la);
        lemma_mapping_remove(b, pb);
        lemma_same_mapping_same_length(a.remove(la), b.remove(pb));
    }
}

/// Where one of the first `n` records is faulty, there is a first fault.
pub proof fn lemma_least_fault(records: Seq<TodoModel>, n: int)
    requires
        0 <= n <= records.len(),
        exists|i: int| 0 <= i < n && faulty_at(records, i),
    ensures
        exists|k: int| 0 <= k < n && first_fault(records, k),
    decreases n,
{
    if exists|i: int| 0 <= i < n - 1 && faulty_at(records, i) {
        lemma_least_fault(records, n - 1);
    } else {
        assert(first_fault(records, n - 1));
    }
}

} // verus!
