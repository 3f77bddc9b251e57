use crud_backend::{Status, Todo, TodoId, TodoStore};

fn todo(id: u64, desc: &str, completed: bool) -> Todo {
    Todo { id, desc: desc.to_string(), completed }
}

#[test]
fn new_store_is_empty() {
    let store = TodoStore::new();
    assert_eq!(store.len(), 0);
    assert_eq!(store.last_id(), 0);
    assert_eq!(store.get_todos(), Vec::<Todo>::new());
    assert_eq!(store.get_latest_todos(), Vec::<Todo>::new());
    assert_eq!(store.get_paginated_todos(0, 10), Vec::<Todo>::new());
}

#[test]
fn first_identifier_is_one() {
    let mut store = TodoStore::new();
    assert_eq!(store.create_todo("buy milk".to_string()), 1);
    assert_eq!(store.last_id(), 1);
    assert_eq!(store.len(), 1);
}

#[test]
fn created_record_is_not_completed() {
    let mut store = TodoStore::new();
    let id = store.create_todo("buy milk".to_string());
    assert_eq!(store.get_todos(), vec![todo(id, "buy milk", false)]);
}

#[test]
fn empty_description_is_accepted() {
    let mut store = TodoStore::new();
    let id = store.create_todo(String::new());
    assert_eq!(id, 1);
    assert_eq!(store.get_todos(), vec![todo(1, "", false)]);
}

#[test]
fn identifiers_strictly_increase() {
    let mut store = TodoStore::new();
    let mut ids = Vec::new();
    for n in 0..50u64 {
        ids.push(store.create_todo(format!("item {}", n)));
    }
    for pair in ids.windows(2) {
        assert!(pair[0] < pair[1]);
    }
    assert_eq!(ids, (1..=50u64).collect::<Vec<u64>>());
}

#[test]
fn identifiers_increase_across_updates_and_deletes() {
    let mut store = TodoStore::new();
    let a = store.create_todo("a".to_string());
    assert_eq!(store.update_todo(a, Some("a2".to_string()), None), Status::Updated);
    let b = store.create_todo("b".to_string());
    assert_eq!(store.delete_todo(b), Status::Deleted);
    let c = store.create_todo("c".to_string());
    assert_eq!(store.delete_todo(a), Status::Deleted);
    assert_eq!(store.delete_todo(c), Status::Deleted);
    let d = store.create_todo("d".to_string());
    assert_eq!((a, b, c, d), (1, 2, 3, 4));
    assert_eq!(store.last_id(), 4);
    assert_eq!(store.get_todos(), vec![todo(4, "d", false)]);
}

#[test]
fn deleted_identifier_is_not_reused() {
    let mut store = TodoStore::new();
    store.create_todo("a".to_string());
    store.create_todo("b".to_string());
    assert_eq!(store.delete_todo(2), Status::Deleted);
    assert_eq!(store.create_todo("c".to_string()), 3);
    assert_eq!(store.update_todo(2, None, Some(true)), Status::NotFound);
    assert_eq!(store.get_todos(), vec![todo(1, "a", false), todo(3, "c", false)]);
}

#[test]
fn update_description_only_keeps_completed() {
    let mut store = TodoStore::new();
    store.create_todo("a".to_string());
    assert_eq!(store.update_todo(1, None, Some(true)), Status::Updated);
    assert_eq!(store.update_todo(1, Some("b".to_string()), None), Status::Updated);
    assert_eq!(store.get_todos(), vec![todo(1, "b", true)]);
}

#[test]
fn update_completed_only_keeps_description() {
    let mut store = TodoStore::new();
    store.create_todo("a".to_string());
    assert_eq!(store.update_todo(1, None, Some(true)), Status::Updated);
    assert_eq!(store.get_todos(), vec![todo(1, "a", true)]);
    assert_eq!(store.update_todo(1, None, Some(false)), Status::Updated);
    assert_eq!(store.get_todos(), vec![todo(1, "a", false)]);
}

#[test]
fn update_both_fields() {
    let mut store = TodoStore::new();
    store.create_todo("a".to_string());
    assert_eq!(store.update_todo(1, Some("z".to_string()), Some(true)), Status::Updated);
    assert_eq!(store.get_todos(), vec![todo(1, "z", true)]);
}

#[test]
fn update_with_neither_field_succeeds_and_changes_nothing() {
    let mut store = TodoStore::new();
    store.create_todo("a".to_string());
    store.create_todo("b".to_string());
    let before = store.get_todos();
    assert_eq!(store.update_todo(2, None, None), Status::Updated);
    assert_eq!(store.get_todos(), before);
    assert_eq!(store.last_id(), 2);
}

#[test]
fn update_touches_no_other_record() {
    let mut store = TodoStore::new();
    store.create_todo("a".to_string());
    store.create_todo("b".to_string());
    store.create_todo("c".to_string());
    assert_eq!(store.update_todo(2, Some("B".to_string()), Some(true)), Status::Updated);
    assert_eq!(
        store.get_todos(),
        vec![todo(1, "a", false), todo(2, "B", true), todo(3, "c", false)]
    );
}

#[test]
fn update_unknown_identifier_is_not_found() {
    let mut store = TodoStore::new();
    store.create_todo("a".to_string());
    let before = store.get_todos();
    assert_eq!(store.update_todo(0, Some("x".to_string()), Some(true)), Status::NotFound);
    assert_eq!(store.update_todo(2, Some("x".to_string()), Some(true)), Status::NotFound);
    assert_eq!(store.update_todo(u64::MAX, None, None), Status::NotFound);
    assert_eq!(store.get_todos(), before);
    assert_eq!(store.last_id(), 1);
}

#[test]
fn delete_unknown_identifier_is_not_found() {
    let mut store = TodoStore::new();
    store.create_todo("a".to_string());
    let before = store.get_todos();
    assert_eq!(store.delete_todo(0), Status::NotFound);
    assert_eq!(store.delete_todo(7), Status::NotFound);
    assert_eq!(store.get_todos(), before);
    assert_eq!(store.last_id(), 1);
}

#[test]
fn delete_twice_is_not_found_the_second_time() {
    let mut store = TodoStore::new();
    store.create_todo("a".to_string());
    store.create_todo("b".to_string());
    assert_eq!(store.delete_todo(1), Status::Deleted);
    let before = store.get_todos();
    assert_eq!(store.delete_todo(1), Status::NotFound);
    assert_eq!(store.get_todos(), before);
    assert_eq!(before, vec![todo(2, "b", false)]);
}

#[test]
fn delete_from_the_middle_keeps_the_others() {
    let mut store = TodoStore::new();
    for n in 1..=5u64 {
        store.create_todo(format!("t{}", n));
    }
    assert_eq!(store.delete_todo(3), Status::Deleted);
    assert_eq!(store.len(), 4);
    let ids: Vec<u64> = store.get_todos().iter().map(|t| t.id).collect();
    assert_eq!(ids, vec![1, 2, 4, 5]);
    assert_eq!(store.update_todo(4, None, Some(true)), Status::Updated);
    assert_eq!(store.update_todo(3, None, Some(true)), Status::NotFound);
    assert_eq!(store.delete_todo(1), Status::Deleted);
    assert_eq!(store.delete_todo(5), Status::Deleted);
    assert_eq!(store.get_todos(), vec![todo(2, "t2", false), todo(4, "t4", true)]);
}

#[test]
fn end_to_end_scenario() {
    let mut store = TodoStore::new();
    store.init();
    assert_eq!(store.create_todo("buy milk".to_string()), 1);
    assert_eq!(store.create_todo("walk dog".to_string()), 2);
    let status = store.update_todo(1, None, Some(true));
    assert_eq!(status, Status::Updated);
    assert!(status.is_success());
    assert_eq!(
        store.get_todos(),
        vec![todo(1, "buy milk", true), todo(2, "walk dog", false)]
    );
    let status = store.delete_todo(2);
    assert_eq!(status, Status::Deleted);
    assert!(status.is_success());
    assert_eq!(store.get_todos(), vec![todo(1, "buy milk", true)]);
    let status = store.delete_todo(2);
    assert_eq!(status, Status::NotFound);
    assert!(!status.is_success());
    assert_eq!(status.message(), "Todo item not found");
}

#[test]
fn init_resets_records_and_counter() {
    let mut store = TodoStore::new();
    store.create_todo("a".to_string());
    store.create_todo("b".to_string());
    store.init();
    assert_eq!(store.len(), 0);
    assert_eq!(store.last_id(), 0);
    assert_eq!(store.get_todos(), Vec::<Todo>::new());
    assert_eq!(store.create_todo("c".to_string()), 1);
}

#[test]
fn status_messages() {
    assert_eq!(Status::Updated.message(), "Todo item updated successfully");
    assert_eq!(Status::Deleted.message(), "Todo item deleted successfully");
    assert_eq!(Status::NotFound.message(), "Todo item not found");
    assert_ne!(Status::Updated.message(), Status::NotFound.message());
    assert_ne!(Status::Deleted.message(), Status::NotFound.message());
}

#[test]
fn status_success_flags() {
    assert!(Status::Updated.is_success());
    assert!(Status::Deleted.is_success());
    assert!(!Status::NotFound.is_success());
}

#[test]
fn returned_records_are_copies() {
    let mut store = TodoStore::new();
    store.create_todo("a".to_string());
    let mut listed = store.get_todos();
    listed[0].desc.push_str(" changed");
    listed[0].completed = true;
    assert_eq!(store.get_todos(), vec![todo(1, "a", false)]);
    let earlier = store.get_todos();
    store.update_todo(1, Some("b".to_string()), Some(true));
    store.create_todo("c".to_string());
    assert_eq!(earlier, vec![todo(1, "a", false)]);
}

#[test]
fn clone_is_independent() {
    let mut store = TodoStore::new();
    store.create_todo("a".to_string());
    let copy = store.clone();
    store.create_todo("b".to_string());
    store.update_todo(1, None, Some(true));
    assert_eq!(copy.get_todos(), vec![todo(1, "a", false)]);
    assert_eq!(copy.last_id(), 1);
    assert_eq!(store.last_id(), 2);
}

#[test]
fn todo_clone_keeps_every_field() {
    let first = todo(9, "nine", true);
    let copy = first.clone();
    assert_eq!(copy, first);
    assert_eq!(copy.id, 9);
    assert_eq!(copy.desc, "nine");
    assert!(copy.completed);
}

#[test]
fn lookup_finds_every_record_in_a_large_store() {
    let mut store = TodoStore::new();
    for n in 1..=200u64 {
        store.create_todo(format!("t{}", n));
    }
    for id in (2..=200u64).step_by(2) {
        assert_eq!(store.delete_todo(id), Status::Deleted);
    }
    for id in 1..=200u64 {
        let expected = if id % 2 == 1 { Status::Updated } else { Status::NotFound };
        assert_eq!(store.update_todo(id, None, Some(true)), expected);
    }
    assert_eq!(store.len(), 100);
    assert!(store.get_todos().iter().all(|t| t.completed && t.id % 2 == 1));
}

#[test]
fn default_todo_is_blank() {
    let blank = Todo::default();
    assert_eq!(blank, todo(0, "", false));
}

#[test]
fn identifiers_are_sixty_four_bit() {
    let greatest: TodoId = u64::MAX;
    let mut store = TodoStore::new();
    let id: TodoId = store.create_todo("a".to_string());
    assert!(id < greatest);
    assert_eq!(store.update_todo(greatest, None, None), Status::NotFound);
}
