use tasklist::task::{StoreError, Task, TaskStore};

fn names(store: &TaskStore) -> Vec<String> {
    store.list().iter().map(|t| t.name().to_string()).collect()
}

fn flags(store: &TaskStore) -> Vec<bool> {
    store.list().iter().map(|t| t.completed()).collect()
}

fn store_of(list: &[&str]) -> TaskStore {
    let mut store = TaskStore::new();
    for name in list {
        store.add(name.to_string()).unwrap();
    }
    store
}

#[test]
fn new_store_is_empty() {
    let store = TaskStore::new();
    assert_eq!(store.len(), 0);
    assert!(store.list().is_empty());
}

#[test]
fn add_appends_an_open_task() {
    let mut store = TaskStore::new();
    assert_eq!(store.add("Buy milk".to_string()), Ok(0));
    assert_eq!(store.len(), 1);
    assert_eq!(store.list()[0].name(), "Buy milk");
    assert!(!store.list()[0].completed());
}

#[test]
fn add_returns_successive_positions() {
    let mut store = TaskStore::new();
    assert_eq!(store.add("a".to_string()), Ok(0));
    assert_eq!(store.add("b".to_string()), Ok(1));
    assert_eq!(store.add("c".to_string()), Ok(2));
    assert_eq!(names(&store), vec!["a", "b", "c"]);
    assert_eq!(flags(&store), vec![false, false, false]);
}

#[test]
fn add_refuses_blank_names() {
    let mut store = store_of(&["kept"]);
    assert_eq!(store.add(String::new()), Err(StoreError::InvalidInput));
    assert_eq!(store.add("   ".to_string()), Err(StoreError::InvalidInput));
    assert_eq!(store.add("\t\n\r ".to_string()), Err(StoreError::InvalidInput));
    assert_eq!(store.add("\u{a0}\u{2003}\u{3000}".to_string()), Err(StoreError::InvalidInput));
    assert_eq!(names(&store), vec!["kept"]);
}

#[test]
fn add_does_not_trim() {
    let mut store = TaskStore::new();
    assert_eq!(store.add("  padded  ".to_string()), Ok(0));
    assert_eq!(store.list()[0].name(), "  padded  ");
}

#[test]
fn add_accepts_names_that_are_not_white_space() {
    let mut store = TaskStore::new();
    assert_eq!(store.add("\u{200b}".to_string()), Ok(0));
    assert_eq!(store.add("_".to_string()), Ok(1));
    assert_eq!(store.add("\u{1f}".to_string()), Ok(2));
}

#[test]
fn toggle_flips_the_flag() {
    let mut store = store_of(&["a", "b"]);
    assert_eq!(store.toggle_complete(1), Ok(()));
    assert_eq!(flags(&store), vec![false, true]);
    assert_eq!(names(&store), vec!["a", "b"]);
}

#[test]
fn toggle_twice_restores_the_flag() {
    let mut store = store_of(&["a", "b", "c"]);
    store.toggle_complete(2).unwrap();
    let before = store.clone();
    for index in 0..3 {
        assert_eq!(store.toggle_complete(index), Ok(()));
        assert_ne!(store, before);
        assert_eq!(store.toggle_complete(index), Ok(()));
        assert_eq!(store, before);
    }
}

#[test]
fn toggle_refuses_positions_outside_the_list() {
    let mut store = store_of(&["a"]);
    assert_eq!(store.toggle_complete(1), Err(StoreError::IndexOutOfRange));
    assert_eq!(store.toggle_complete(usize::MAX), Err(StoreError::IndexOutOfRange));
    assert_eq!(flags(&store), vec![false]);
    let mut empty = TaskStore::new();
    assert_eq!(empty.toggle_complete(0), Err(StoreError::IndexOutOfRange));
}

#[test]
fn remove_deletes_the_entry_and_shifts_the_rest() {
    let mut store = store_of(&["a", "b", "c", "d"]);
    store.toggle_complete(2).unwrap();
    assert_eq!(store.remove(1), Ok(()));
    assert_eq!(names(&store), vec!["a", "c", "d"]);
    assert_eq!(flags(&store), vec![false, true, false]);
    assert_eq!(store.remove(0), Ok(()));
    assert_eq!(names(&store), vec!["c", "d"]);
    assert_eq!(store.remove(1), Ok(()));
    assert_eq!(names(&store), vec!["c"]);
    assert_eq!(flags(&store), vec![true]);
}

#[test]
fn remove_refuses_positions_outside_the_list() {
    let mut store = store_of(&["a", "b"]);
    assert_eq!(store.remove(2), Err(StoreError::IndexOutOfRange));
    assert_eq!(names(&store), vec!["a", "b"]);
    let mut empty = TaskStore::new();
    assert_eq!(empty.remove(0), Err(StoreError::IndexOutOfRange));
}

#[test]
fn scenario_add_toggle_remove() {
    let mut store = TaskStore::new();
    store.add("Buy milk".to_string()).unwrap();
    assert_eq!(names(&store), vec!["Buy milk"]);
    assert_eq!(flags(&store), vec![false]);
    store.toggle_complete(0).unwrap();
    assert_eq!(flags(&store), vec![true]);
    store.remove(0).unwrap();
    assert!(store.list().is_empty());
}

#[test]
fn task_new_checks_the_name() {
    assert!(Task::new(String::new()).is_none());
    assert!(Task::new(" \t".to_string()).is_none());
    let task = Task::new("x".to_string()).unwrap();
    assert_eq!(task.name(), "x");
    assert!(!task.completed());
}

#[test]
fn task_restore_keeps_the_flag() {
    assert!(Task::restore(" ".to_string(), true).is_none());
    let done = Task::restore("x".to_string(), true).unwrap();
    assert!(done.completed());
    let open = Task::restore("x".to_string(), false).unwrap();
    assert!(!open.completed());
    assert_eq!(open, Task::new("x".to_string()).unwrap());
}

#[test]
fn a_copy_of_a_store_holds_the_same_tasks() {
    let mut store = store_of(&["a", "b", "c"]);
    store.toggle_complete(1).unwrap();
    let copy = store.clone();
    assert_eq!(copy, store);
    assert_eq!(names(&copy), vec!["a", "b", "c"]);
    assert_eq!(flags(&copy), vec![false, true, false]);
    store.remove(0).unwrap();
    assert_eq!(names(&copy), vec!["a", "b", "c"]);
    let task = copy.list()[1].clone();
    assert_eq!(task, copy.list()[1]);
}
