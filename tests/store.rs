use service_demo::error::Error;
use service_demo::todo::{get_todo_store, Todo, TodoQuery, TodoRepo, TodoUpdate};

fn todo(value: &str, done: bool) -> Todo {
    Todo { id: 0, value: value.to_owned(), done }
}

#[test]
fn create_assigns_increasing_ids() {
    let mut s = get_todo_store();
    assert_eq!(s.create(todo("Buy groceries", false)).unwrap(), 1);
    assert_eq!(s.create(todo("Walk", false)).unwrap(), 2);
    s.delete(vec![1]).unwrap();
    assert_eq!(s.create(todo("Read", true)).unwrap(), 3);
}

#[test]
fn non_positive_ids_are_not_found() {
    let mut s = get_todo_store();
    s.create(todo("a", false)).unwrap();
    assert!(matches!(s.fetch(0), Err(Error::IdNotFound { id: 0 })));
    assert!(matches!(s.fetch(-3), Err(Error::IdNotFound { id: -3 })));
}

#[test]
fn update_changes_given_fields() {
    let mut s = get_todo_store();
    s.create(todo("a", false)).unwrap();
    s.update(TodoUpdate { id: 1, value: Some("b".to_owned()), done: None }).unwrap();
    let t = s.fetch(1).unwrap();
    assert_eq!(t.value, "b");
    assert!(!t.done);
    s.update(TodoUpdate { id: 1, value: None, done: Some(true) }).unwrap();
    assert!(s.fetch(1).unwrap().done);
    assert!(matches!(
        s.update(TodoUpdate { id: 9, value: None, done: Some(true) }),
        Err(Error::IdNotFound { id: 9 })
    ));
    assert!(matches!(
        s.update(TodoUpdate { id: -1, value: None, done: None }),
        Err(Error::IdNotFound { id: -1 })
    ));
    assert!(s.update(TodoUpdate { id: 9, value: None, done: None }).is_ok());
}

#[test]
fn fetch_missing_is_not_found() {
    let mut s = get_todo_store();
    s.create(todo("a", false)).unwrap();
    assert!(matches!(s.fetch(2), Err(Error::IdNotFound { id: 2 })));
    assert_eq!(s.fetch(1).unwrap().id, 1);
}

#[test]
fn query_ignores_case_and_filters_status() {
    let mut s = get_todo_store();
    s.create(todo("Buy Groceries", false)).unwrap();
    s.create(todo("buy milk", true)).unwrap();
    s.create(todo("Read", false)).unwrap();
    let all = s.query(TodoQuery { value: None, done: None }).unwrap();
    assert_eq!(all.len(), 3);
    let buy = s.query(TodoQuery { value: Some("BUY".to_owned()), done: None }).unwrap();
    assert_eq!(buy.iter().map(|t| t.id).collect::<Vec<_>>(), vec![1, 2]);
    let open = s.query(TodoQuery { value: Some("buy".to_owned()), done: Some(false) }).unwrap();
    assert_eq!(open.len(), 1);
    assert_eq!(open[0].value, "Buy Groceries");
    let none = s.query(TodoQuery { value: Some("xyz".to_owned()), done: None }).unwrap();
    assert!(none.is_empty());
}

#[test]
fn delete_removes_listed_ids() {
    let mut s = get_todo_store();
    for v in ["a", "b", "c"] {
        s.create(todo(v, false)).unwrap();
    }
    s.delete(vec![1, 3, 8]).unwrap();
    let left = s.query(TodoQuery { value: None, done: None }).unwrap();
    assert_eq!(left.len(), 1);
    assert_eq!(left[0].id, 2);
}
