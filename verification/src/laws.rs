//! What holds of every valid store, stated over the model.

use crate::lemmas::{
    lemma_ascending_distinct, lemma_ascending_unique, lemma_greatest_id, lemma_listing_below,
    lemma_least_fault, lemma_mapping_at, lemma_mapping_entry, lemma_mapping_push,
    lemma_mapping_remove, lemma_mapping_update, lemma_run_counter,
    lemma_same_mapping_same_length,
};
use crate::model::{
    ascending, faulty_at, first_fault, greatest_id, holds_id, mapping_of, position_of, restorable,
    Request, StoreModel, LATEST_LIMIT,
};
use crate::todo::TodoModel;
use vstd::prelude::*;

verus! {

/// A store after initialization is valid and holds no record, and its first
/// creation returns the identifier one.
pub proof fn law_empty()
    ensures
        StoreModel::empty().wf(),
        StoreModel::empty().listing() == Seq::<TodoModel>::empty(),
        StoreModel::empty().count() == 0,
        StoreModel::empty().next_id() == 1,
        forall|id: nat| !StoreModel::empty().contains(id),
{
    reveal_with_fuel(StoreModel::listing_below, 2);
}

/// The listing of a valid store is strictly ascending by identifier and
/// holds exactly the records of the store.
pub proof fn law_listing(m: StoreModel)
    requires
        m.wf(),
    ensures
        ascending(m.listing()),
        mapping_of(m.listing()) == m.todos,
{
    let all = m.listing();
    lemma_listing_below(m, m.last_id + 1);
    lemma_ascending_distinct(all);
    assert forall|id: nat| mapping_of(all).contains_key(id) implies m.todos.contains_key(id)
        && mapping_of(all)[id] == m.todos[id] by {
        lemma_mapping_entry(all, id);
    }
    assert(mapping_of(all) =~= m.todos);
}

/// What a creation does to the listing: the new record comes last.
pub proof fn law_create_listing(s: StoreModel, desc: Seq<char>)
    requires
        s.wf(),
    ensures
        s.create(desc).listing() == s.listing().push(TodoModel::fresh(s.next_id(), desc)),
        s.create(desc).count() == s.count() + 1,
{
    let all = s.listing();
    let fresh = TodoModel::fresh(s.next_id(), desc);
    law_listing(s);
    law_listing(s.create(desc));
    lemma_listing_below(s, s.last_id + 1);
    lemma_ascending_distinct(all);
    assert(!holds_id(all, fresh.id));
    lemma_mapping_push(all, fresh);
    assert(ascending(all.push(fresh)));
    lemma_ascending_unique(s.create(desc).listing(), all.push(fresh));
}

/// What an update does to the listing: the record changes in its place,
/// and every other record and the order stay.
pub proof fn law_update_listing(
    s: StoreModel,
    id: nat,
    new_desc: Option<Seq<char>>,
    new_completed: Option<bool>,
)
    requires
        s.wf(),
        s.contains(id),
    ensures
        0 <= position_of(s.listing(), id) < s.count(),
        s.listing()[position_of(s.listing(), id)] == s.todos[id],
        s.update(id, new_desc, new_completed).listing() == s.listing().update(
            position_of(s.listing(), id),
            s.todos[id].patched(new_desc, new_completed),
        ),
        s.update(id, new_desc, new_completed).count() == s.count(),
{
    let all = s.listing();
    let after = s.update(id, new_desc, new_completed);
    let patched = s.todos[id].patched(new_desc, new_completed);
    law_listing(s);
    law_listing(after);
    lemma_ascending_distinct(all);
    lemma_mapping_entry(all, id);
    let k = position_of(all, id);
    lemma_mapping_update(all, k, patched);
    assert(ascending(all.update(k, patched)));
    lemma_ascending_unique(after.listing(), all.update(k, patched));
}

/// What a removal does to the listing: the record leaves, and every other
/// record and the order stay.
pub proof fn law_delete_listing(s: StoreModel, id: nat)
    requires
        s.wf(),
        s.contains(id),
    ensures
        0 <= position_of(s.listing(), id) < s.count(),
        s.listing()[position_of(s.listing(), id)] == s.todos[id],
        s.delete(id).listing() == s.listing().remove(position_of(s.listing(), id)),
        s.delete(id).count() == s.count() - 1,
{
    let all = s.listing();
    let after = s.delete(id);
    law_listing(s);
    law_listing(after);
    lemma_ascending_distinct(all);
    lemma_mapping_entry(all, id);
    let k = position_of(all, id);
    lemma_mapping_remove(all, k);
    assert(ascending(all.remove(k))) by {
        assert forall|i: int, j: int| 0 <= i < j < all.remove(k).len() implies all.remove(k)[i].id
            < all.remove(k)[j].id by {
            let oi = if i < k { i } else { i + 1 };
            let oj = if j < k { j } else { j + 1 };
            assert(all[oi].id < all[oj].id);
        }
    }
    lemma_ascending_unique(after.listing(), all.remove(k));
}

/// A mutating call keeps a valid store valid and never lowers the counter.
pub proof fn law_apply_valid(s: StoreModel, request: Request)
    requires
        s.wf(),
    ensures
        s.apply(request).wf(),
        s.apply(request).last_id >= s.last_id,
{
}

/// A series of mutating calls keeps a valid store valid and never lowers
/// the counter.
pub proof fn law_run_valid(s: StoreModel, requests: Seq<Request>)
    requires
        s.wf(),
    ensures
        s.run(requests).wf(),
        s.run(requests).last_id >= s.last_id,
    decreases requests.len(),
{
    if requests.len() > 0 {
        law_run_valid(s, requests.drop_last());
        law_apply_valid(s.run(requests.drop_last()), requests.last());
    }
}

/// Identifier uniqueness and monotonicity: in any series of mutating
/// calls, whatever updates and removals come between, a later creation
/// returns a strictly greater identifier than an earlier one. So no two
/// creations return the same identifier, and none returns an identifier
/// that was issued before the series began.
pub proof fn law_created_ids_increase(s: StoreModel, requests: Seq<Request>, i: int, j: int)
    requires
        0 <= i < j < requests.len(),
        requests[i] is Create,
        requests[j] is Create,
    ensures
        s.issued(requests, i) < s.issued(requests, j),
        s.issued(requests, i) != s.issued(requests, j),
        s.issued(requests, i) > s.last_id,
{
    let upto_i = requests.take(i + 1);
    assert(upto_i.drop_last() =~= requests.take(i));
    assert(requests.take(j).take(i + 1) =~= upto_i);
    lemma_run_counter(s, requests.take(j), i + 1);
    lemma_run_counter(s, requests.take(i), 0);
}

/// Partial update: a description alone leaves the completion flag as it
/// was, a completion flag alone leaves the description as it was, and an
/// update with neither changes nothing. No update touches another record
/// or the counter.
pub proof fn law_partial_update(
    s: StoreModel,
    id: nat,
    desc: Seq<char>,
    completed: bool,
    new_desc: Option<Seq<char>>,
    new_completed: Option<bool>,
)
    requires
        s.contains(id),
    ensures
        s.update(id, Some(desc), None).todos[id] == (TodoModel {
            id: s.todos[id].id,
            desc,
            completed: s.todos[id].completed,
        }),
        s.update(id, None, Some(completed)).todos[id] == (TodoModel {
            id: s.todos[id].id,
            desc: s.todos[id].desc,
            completed,
        }),
        s.update(id, None, None) == s,
        s.update(id, new_desc, new_completed).last_id == s.last_id,
        s.update(id, new_desc, new_completed).todos.dom() == s.todos.dom(),
        forall|other: nat|
            other != id ==> s.update(id, new_desc, new_completed).todos[other] == s.todos[other],
{
}

/// Not found means unchanged: an update or a removal that names an
/// identifier the store does not hold leaves the store as it is.
pub proof fn law_unknown_id_changes_nothing(
    s: StoreModel,
    id: nat,
    new_desc: Option<Seq<char>>,
    new_completed: Option<bool>,
)
    requires
        !s.contains(id),
    ensures
        s.update(id, new_desc, new_completed) == s,
        s.delete(id) == s,
        s.update(id, new_desc, new_completed).listing() == s.listing(),
        s.delete(id).listing() == s.listing(),
{
}

/// An identifier that was never issued is not held: neither zero nor any
/// identifier above the counter.
pub proof fn law_unissued_id_unknown(s: StoreModel, id: nat)
    requires
        s.wf(),
        id == 0 || id > s.last_id,
    ensures
        !s.contains(id),
{
}

/// A removed record is gone, all others stay, and the counter stays.
pub proof fn law_delete(s: StoreModel, id: nat)
    ensures
        !s.delete(id).contains(id),
        s.delete(id).last_id == s.last_id,
        forall|other: nat|
            other != id ==> (s.delete(id).contains(other) <==> s.contains(other)) && s.delete(
                id,
            ).todos[other] == s.todos[other],
{
}

/// No identifier is used again: one that is at or below the counter and
/// not held, because it was removed, is not held after any series of
/// mutating calls either.
pub proof fn law_no_identifier_reuse(s: StoreModel, id: nat, requests: Seq<Request>)
    requires
        s.wf(),
        id <= s.last_id,
        !s.contains(id),
    ensures
        !s.run(requests).contains(id),
    decreases requests.len(),
{
    if requests.len() > 0 {
        let front = requests.drop_last();
        law_no_identifier_reuse(s, id, front);
        law_run_valid(s, front);
    }
}

/// Pagination boundaries: a page that starts at or beyond the number of
/// records is empty, a page of size zero is empty, and page zero with the
/// number of records as its size is the whole listing.
pub proof fn law_page_boundaries(s: StoreModel, page_number: nat, page_size: nat)
    ensures
        page_number * page_size >= s.count() ==> s.page(page_number, page_size) == Seq::<
            TodoModel,
        >::empty(),
        s.page(page_number, 0) == Seq::<TodoModel>::empty(),
        s.page(0, s.count()) == s.listing(),
{
    assert(page_number * 0 == 0) by (nonlinear_arith);
    assert(0 * s.count() == 0) by (nonlinear_arith);
}

/// A page holds the records of the listing from its start on, in the same
/// order, and never more than its size.
pub proof fn law_page_content(s: StoreModel, page_number: nat, page_size: nat)
    ensures
        s.page(page_number, page_size).len() <= page_size,
        s.page(page_number, page_size).len() <= s.count(),
        forall|i: int|
            0 <= i < s.page(page_number, page_size).len() ==> page_number * page_size + i
                < s.count() && #[trigger] s.page(page_number, page_size)[i] == s.listing()[page_number
                * page_size + i],
{
}

/// Latest ordering: the latest-first listing has `LATEST_LIMIT` records,
/// or all if there are fewer; its identifiers strictly descend; each of its
/// records is held by the store; and every record that it leaves out has a
/// smaller identifier than each that it holds.
pub proof fn law_latest(s: StoreModel)
    requires
        s.wf(),
    ensures
        s.latest().len() == if s.count() <= LATEST_LIMIT {
            s.count()
        } else {
            LATEST_LIMIT as nat
        },
        forall|i: int, j: int|
            0 <= i < j < s.latest().len() ==> s.latest()[i].id > s.latest()[j].id,
        forall|i: int|
            0 <= i < s.latest().len() ==> s.contains((#[trigger] s.latest()[i]).id)
                && s.todos[s.latest()[i].id] == s.latest()[i],
        forall|id: nat, i: int|
            #![trigger s.contains(id), s.latest()[i]]
            s.contains(id) && !holds_id(s.latest(), id) && 0 <= i < s.latest().len() ==> id
                < s.latest()[i].id,
{
    let all = s.listing();
    let top = s.latest();
    law_listing(s);
    lemma_ascending_distinct(all);
    assert forall|i: int| 0 <= i < top.len() implies s.contains((#[trigger] top[i]).id)
        && s.todos[top[i].id] == top[i] by {
        lemma_mapping_at(all, all.len() - 1 - i);
    }
    assert forall|id: nat, i: int|
        #![trigger s.contains(id), top[i]]
        s.contains(id) && !holds_id(top, id) && 0 <= i < top.len() implies id < top[i].id by {
        lemma_mapping_entry(all, id);
        let p = position_of(all, id);
        if p >= all.len() - top.len() {
            assert(top[all.len() - 1 - p] == all[p]);
        }
        assert(all[p].id < all[all.len() - 1 - i].id);
    }
}

/// Restoring what a store persists: the records of a valid store can be
/// restored, and restoring its listing with its counter gives the same
/// store back, so that the next creation returns an identifier above every
/// one issued before.
pub proof fn law_round_trip(s: StoreModel)
    requires
        s.wf(),
    ensures
        restorable(s.listing()),
        StoreModel::restored(s.listing(), s.last_id) == s,
        StoreModel::restored(s.listing(), s.last_id).next_id() > s.last_id,
{
    let all = s.listing();
    law_listing(s);
    lemma_listing_below(s, s.last_id + 1);
    lemma_ascending_distinct(all);
    lemma_greatest_id(all);
    assert(greatest_id(all) <= s.last_id) by {
        if all.len() > 0 {
            assert(all[position_of(all, greatest_id(all))].id <= s.last_id);
        }
    }
}

/// A persisted copy can be restored exactly if none of its records is
/// faulty, and it has no more than one first fault: the error of a copy
/// that is refused is determined.
pub proof fn law_first_fault(records: Seq<TodoModel>, j: int, k: int)
    ensures
        restorable(records) <==> forall|i: int| 0 <= i < records.len() ==> !faulty_at(records, i),
        restorable(records) <==> !exists|i: int| first_fault(records, i),
        first_fault(records, j) && first_fault(records, k) ==> j == k,
{
    if restorable(records) {
        assert forall|i: int| 0 <= i < records.len() implies !faulty_at(records, i) by {
            if holds_id(records.take(i), records[i].id) {
                let p = position_of(records.take(i), records[i].id);
                assert(records[p].id == records[i].id);
            }
        }
    }
    if forall|i: int| 0 <= i < records.len() ==> !faulty_at(records, i) {
        assert forall|a: int, b: int|
            0 <= a < records.len() && 0 <= b < records.len() && a != b implies records[a].id
            != records[b].id by {
            let (lo, hi) = if a < b { (a, b) } else { (b, a) };
            assert(!faulty_at(records, hi));
            if records[a].id == records[b].id {
                assert(records.take(hi)[lo].id == records[hi].id);
            }
        }
        assert forall|i: int| 0 <= i < records.len() implies (#[trigger] records[i]).id >= 1 by {
            assert(!faulty_at(records, i));
        }
        assert forall|i: int| !first_fault(records, i) by {}
    } else {
        lemma_least_fault(records, records.len() as int);
    }
}

/// What is restored is valid: it holds the records by their identifiers,
/// its listing is the records by ascending identifier, and its counter is
/// neither below the persisted counter nor below any identifier in use.
pub proof fn law_restored_valid(records: Seq<TodoModel>, last_id: nat)
    requires
        restorable(records),
    ensures
        StoreModel::restored(records, last_id).wf(),
        StoreModel::restored(records, last_id).last_id >= last_id,
        StoreModel::restored(records, last_id).count() == records.len(),
        forall|i: int|
            0 <= i < records.len() ==> (#[trigger] records[i]).id <= StoreModel::restored(
                records,
                last_id,
            ).last_id && StoreModel::restored(records, last_id).todos[records[i].id] == records[i],
        ascending(records) ==> StoreModel::restored(records, last_id).listing() == records,
{
    let r = StoreModel::restored(records, last_id);
    lemma_greatest_id(records);
    assert forall|id: nat| #[trigger] r.todos.contains_key(id) implies 1 <= id <= r.last_id
        && r.todos[id].id == id by {
        lemma_mapping_entry(records, id);
    }
    assert forall|i: int| 0 <= i < records.len() implies (#[trigger] records[i]).id <= r.last_id
        && r.todos[records[i].id] == records[i] by {
        lemma_mapping_at(records, i);
    }
    law_listing(r);
    if ascending(records) {
        lemma_ascending_unique(r.listing(), records);
    }
    lemma_same_mapping_same_length(r.listing(), records);
}

} // verus!
