use tasklist::model::{Priority, TaskList};
use tasklist::storage::{load_tasks, Stored};

#[test]
fn missing_store_gives_a_fresh_list() {
    let list = load_tasks(Stored::Missing).unwrap();
    assert_eq!(list.next_id, 1);
    assert!(list.tasks.is_empty());
}

#[test]
fn malformed_store_gives_a_fresh_list() {
    let list = load_tasks(Stored::Malformed).unwrap();
    assert_eq!(list.next_id, 1);
    assert!(list.tasks.is_empty());
}

#[test]
fn unreadable_store_stops() {
    assert!(load_tasks(Stored::Unreadable).is_none());
}

#[test]
fn stored_list_is_taken_as_it_is() {
    let mut stored = TaskList::new();
    stored.add("a".to_string(), None, Priority::Low);
    stored.add("b".to_string(), None, Priority::High);
    stored.complete(2);
    stored.delete(1);

    let list = load_tasks(Stored::List(stored)).unwrap();

    assert_eq!(list.next_id, 3);
    assert_eq!(list.tasks.len(), 1);
    assert_eq!(list.tasks[0].id, 2);
    assert_eq!(list.tasks[0].text, "b");
    assert!(list.tasks[0].done);
    assert_eq!(list.tasks[0].due, None);
    assert_eq!(list.tasks[0].priority, Priority::High);
}
