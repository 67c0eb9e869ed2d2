use tasklist::model::{default_priority, Priority, TaskList};

#[test]
fn add_task_increments_id() {
    let mut list = TaskList::new();

    let id1 = list.add("Task 1".to_string(), None, Priority::Medium);
    let id2 = list.add("Task 2".to_string(), None, Priority::Medium);

    assert_eq!(id1, 1);
    assert_eq!(id2, 2);
    assert_eq!(list.tasks.len(), 2);
}

#[test]
fn complete_marks_task_done() {
    let mut list = TaskList::new();
    let id = list.add("Test".to_string(), None, Priority::Medium);

    let ok = list.complete(id);

    assert!(ok);
    assert!(list.tasks[0].done);
}

#[test]
fn complete_unknown_id_fails() {
    let mut list = TaskList::new();

    let ok = list.complete(42);

    assert!(!ok);
}

#[test]
fn delete_removes_task() {
    let mut list = TaskList::new();
    let id1 = list.add("Task 1".to_string(), None, Priority::Medium);
    let id2 = list.add("Task 2".to_string(), None, Priority::Medium);

    let ok = list.delete(id1);

    assert!(ok);
    assert_eq!(list.tasks.len(), 1);
    assert_eq!(list.tasks[0].id, id2);
}

#[test]
fn default_priority_is_medium() {
    assert_eq!(default_priority(), Priority::Medium);
}

#[test]
fn new_list_is_empty_and_starts_at_one() {
    let list = TaskList::new();
    assert_eq!(list.next_id, 1);
    assert!(list.tasks.is_empty());
}

#[test]
fn added_task_holds_what_was_given() {
    let mut list = TaskList::new();
    let due = tasklist::date::Date::new(2024, 5, 1);
    assert!(due.is_some());

    let id = list.add("Pay rent".to_string(), due, Priority::High);

    assert_eq!(id, 1);
    assert_eq!(list.next_id, 2);
    assert_eq!(list.tasks.len(), 1);
    assert_eq!(list.tasks[0].id, 1);
    assert_eq!(list.tasks[0].text, "Pay rent");
    assert!(!list.tasks[0].done);
    assert_eq!(list.tasks[0].due, due);
    assert_eq!(list.tasks[0].priority, Priority::High);
}

#[test]
fn empty_text_is_accepted() {
    let mut list = TaskList::new();
    let id = list.add(String::new(), None, Priority::Low);
    assert_eq!(id, 1);
    assert_eq!(list.tasks[0].text, "");
}

#[test]
fn ids_are_not_given_out_again() {
    let mut list = TaskList::new();
    let mut ids = Vec::new();
    for round in 0..10 {
        let id = list.add(format!("task {}", round), None, Priority::Medium);
        ids.push(id);
        if round % 2 == 0 {
            assert!(list.delete(id));
        }
    }
    assert_eq!(ids, vec![1, 2, 3, 4, 5, 6, 7, 8, 9, 10]);
    assert_eq!(list.next_id, 11);
    let left: Vec<u32> = list.tasks.iter().map(|t| t.id).collect();
    assert_eq!(left, vec![2, 4, 6, 8, 10]);
}

#[test]
fn completing_twice_changes_nothing_more() {
    let mut list = TaskList::new();
    list.add("a".to_string(), None, Priority::Medium);
    list.add("b".to_string(), None, Priority::Medium);

    assert!(list.complete(2));
    assert!(list.tasks[1].done);
    assert!(!list.tasks[0].done);

    assert!(list.complete(2));
    assert!(list.tasks[1].done);
    assert!(!list.tasks[0].done);
    assert_eq!(list.tasks.len(), 2);
    assert_eq!(list.next_id, 3);
}

#[test]
fn complete_unknown_id_leaves_the_list() {
    let mut list = TaskList::new();
    list.add("a".to_string(), None, Priority::Medium);

    assert!(!list.complete(2));
    assert!(!list.complete(0));

    assert_eq!(list.tasks.len(), 1);
    assert!(!list.tasks[0].done);
    assert_eq!(list.next_id, 2);
}

#[test]
fn delete_unknown_id_leaves_the_list() {
    let mut list = TaskList::new();
    list.add("a".to_string(), None, Priority::Medium);

    assert!(!list.delete(2));

    assert_eq!(list.tasks.len(), 1);
    assert_eq!(list.tasks[0].id, 1);
    assert_eq!(list.next_id, 2);
}

#[test]
fn delete_keeps_the_counter_and_the_others() {
    let mut list = TaskList::new();
    list.add("a".to_string(), None, Priority::Medium);
    list.add("b".to_string(), None, Priority::Medium);
    list.add("c".to_string(), None, Priority::Medium);

    assert!(list.delete(2));
    assert!(!list.delete(2));

    assert_eq!(list.next_id, 4);
    let left: Vec<(u32, &str)> = list.tasks.iter().map(|t| (t.id, t.text.as_str())).collect();
    assert_eq!(left, vec![(1, "a"), (3, "c")]);
    assert_eq!(list.add("d".to_string(), None, Priority::Medium), 4);
}

#[test]
fn complete_takes_the_first_of_equal_ids() {
    let mut list = TaskList { next_id: 9, tasks: Vec::new() };
    for _ in 0..2 {
        list.tasks.push(tasklist::model::Task {
            id: 5,
            text: "twin".to_string(),
            done: false,
            due: None,
            priority: Priority::Medium,
        });
    }

    assert!(list.complete(5));
    assert!(list.tasks[0].done);
    assert!(!list.tasks[1].done);

    assert!(list.delete(5));
    assert!(list.tasks.is_empty());
    assert_eq!(list.next_id, 9);
}

#[test]
fn add_takes_the_counter_as_it_stands() {
    let mut list = TaskList { next_id: 0, tasks: Vec::new() };

    let first = list.add("a".to_string(), None, Priority::Medium);
    let second = list.add("b".to_string(), None, Priority::Medium);

    assert_eq!(first, 0);
    assert_eq!(second, 1);
    assert_eq!(list.next_id, 2);
    let ids: Vec<u32> = list.tasks.iter().map(|t| t.id).collect();
    assert_eq!(ids, vec![0, 1]);
}
