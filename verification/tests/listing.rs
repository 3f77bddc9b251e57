use crud_backend::model::LATEST_LIMIT;
use crud_backend::{Status, Todo, TodoStore};

fn filled(count: u64) -> TodoStore {
    let mut store = TodoStore::new();
    for n in 1..=count {
        store.create_todo(format!("item {}", n));
    }
    store
}

fn ids(todos: &[Todo]) -> Vec<u64> {
    todos.iter().map(|t| t.id).collect()
}

#[test]
fn list_all_is_ascending_by_identifier() {
    let mut store = filled(6);
    store.delete_todo(2);
    store.delete_todo(5);
    store.create_todo("late".to_string());
    assert_eq!(ids(&store.get_todos()), vec![1, 3, 4, 6, 7]);
}

#[test]
fn latest_of_fifteen_is_fifteen_down_to_six() {
    let store = filled(15);
    let latest = store.get_latest_todos();
    assert_eq!(ids(&latest), vec![15, 14, 13, 12, 11, 10, 9, 8, 7, 6]);
    assert_eq!(latest[0].desc, "item 15");
    assert_eq!(latest[9].desc, "item 6");
}

#[test]
fn latest_limit_is_ten() {
    assert_eq!(LATEST_LIMIT, 10);
}

#[test]
fn latest_of_fewer_than_ten_is_all_descending() {
    let store = filled(4);
    assert_eq!(ids(&store.get_latest_todos()), vec![4, 3, 2, 1]);
}

#[test]
fn latest_of_exactly_ten() {
    let store = filled(10);
    assert_eq!(ids(&store.get_latest_todos()), vec![10, 9, 8, 7, 6, 5, 4, 3, 2, 1]);
}

#[test]
fn latest_of_eleven_leaves_out_the_first() {
    let store = filled(11);
    assert_eq!(ids(&store.get_latest_todos()), vec![11, 10, 9, 8, 7, 6, 5, 4, 3, 2]);
}

#[test]
fn latest_skips_deleted_records() {
    let mut store = filled(15);
    assert_eq!(store.delete_todo(15), Status::Deleted);
    assert_eq!(store.delete_todo(10), Status::Deleted);
    assert_eq!(ids(&store.get_latest_todos()), vec![14, 13, 12, 11, 9, 8, 7, 6, 5, 4]);
}

#[test]
fn latest_reflects_updates() {
    let mut store = filled(3);
    store.update_todo(3, Some("changed".to_string()), Some(true));
    let latest = store.get_latest_todos();
    assert_eq!(latest[0], Todo { id: 3, desc: "changed".to_string(), completed: true });
}

#[test]
fn page_zero_of_total_size_is_everything() {
    let store = filled(7);
    assert_eq!(store.get_paginated_todos(0, 7), store.get_todos());
    assert_eq!(store.get_paginated_todos(0, store.len()), store.get_todos());
}

#[test]
fn page_beyond_the_end_is_empty() {
    let store = filled(7);
    assert_eq!(store.get_paginated_todos(7, 1), Vec::<Todo>::new());
    assert_eq!(store.get_paginated_todos(1, 7), Vec::<Todo>::new());
    assert_eq!(store.get_paginated_todos(2, 4), Vec::<Todo>::new());
    assert_eq!(store.get_paginated_todos(100, 100), Vec::<Todo>::new());
}

#[test]
fn page_of_size_zero_is_empty() {
    let store = filled(7);
    for page_number in [0usize, 1, 6, 7, 8, usize::MAX] {
        assert_eq!(store.get_paginated_todos(page_number, 0), Vec::<Todo>::new());
    }
}

#[test]
fn page_start_that_overflows_is_empty() {
    let store = filled(7);
    assert_eq!(store.get_paginated_todos(usize::MAX, 2), Vec::<Todo>::new());
    assert_eq!(store.get_paginated_todos(2, usize::MAX), Vec::<Todo>::new());
    assert_eq!(store.get_paginated_todos(usize::MAX, usize::MAX), Vec::<Todo>::new());
}

#[test]
fn page_size_that_overflows_the_end_is_cut() {
    let store = filled(7);
    assert_eq!(ids(&store.get_paginated_todos(0, usize::MAX)), vec![1, 2, 3, 4, 5, 6, 7]);
    assert_eq!(ids(&store.get_paginated_todos(1, usize::MAX)), Vec::<u64>::new());
    assert_eq!(ids(&store.get_paginated_todos(1, 6)), vec![7]);
}

#[test]
fn pages_cut_the_listing_in_order() {
    let store = filled(7);
    assert_eq!(ids(&store.get_paginated_todos(0, 3)), vec![1, 2, 3]);
    assert_eq!(ids(&store.get_paginated_todos(1, 3)), vec![4, 5, 6]);
    assert_eq!(ids(&store.get_paginated_todos(2, 3)), vec![7]);
    assert_eq!(ids(&store.get_paginated_todos(3, 3)), Vec::<u64>::new());
}

#[test]
fn last_page_is_partial() {
    let store = filled(5);
    assert_eq!(ids(&store.get_paginated_todos(1, 2)), vec![3, 4]);
    assert_eq!(ids(&store.get_paginated_todos(2, 2)), vec![5]);
    assert_eq!(ids(&store.get_paginated_todos(0, 10)), vec![1, 2, 3, 4, 5]);
}

#[test]
fn pages_follow_deletions() {
    let mut store = filled(6);
    store.delete_todo(1);
    store.delete_todo(4);
    assert_eq!(ids(&store.get_paginated_todos(0, 2)), vec![2, 3]);
    assert_eq!(ids(&store.get_paginated_todos(1, 2)), vec![5, 6]);
    assert_eq!(ids(&store.get_paginated_todos(2, 2)), Vec::<u64>::new());
}

#[test]
fn pages_of_an_empty_store_are_empty() {
    let store = TodoStore::new();
    assert_eq!(store.get_paginated_todos(0, 0), Vec::<Todo>::new());
    assert_eq!(store.get_paginated_todos(0, 5), Vec::<Todo>::new());
    assert_eq!(store.get_paginated_todos(3, 5), Vec::<Todo>::new());
}

#[test]
fn pages_are_copies_of_the_records() {
    let mut store = filled(3);
    store.update_todo(2, Some("second".to_string()), Some(true));
    assert_eq!(
        store.get_paginated_todos(1, 1),
        vec![Todo { id: 2, desc: "second".to_string(), completed: true }]
    );
}
