use url_shortener::tasks::{Task, TaskList};

#[test]
fn new_task_starts_incomplete() {
    let t = Task::new(7, "water the plants".to_string());
    assert_eq!(t.id, 7);
    assert_eq!(t.title, "water the plants");
    assert!(!t.completed);
}

#[test]
fn mark_completed_sets_the_flag_only() {
    let mut t = Task::new(7, "water the plants".to_string());
    t.mark_completed();
    assert_eq!(t.id, 7);
    assert_eq!(t.title, "water the plants");
    assert!(t.completed);
}

#[test]
fn added_tasks_get_consecutive_ids_from_one() {
    let mut l = TaskList::new();
    l.add_task("alpha".to_string());
    l.add_task("beta".to_string());
    let tasks = l.list_tasks();
    assert_eq!(tasks.len(), 2);
    assert_eq!(tasks[0].id, 1);
    assert_eq!(tasks[0].title, "alpha");
    assert_eq!(tasks[1].id, 2);
    assert_eq!(tasks[1].title, "beta");
    assert_eq!(l.next_task_id, 3);
}

#[test]
fn remove_task_drops_only_the_named_id() {
    let mut l = TaskList::new();
    l.add_task("alpha".to_string());
    l.add_task("beta".to_string());
    l.add_task("gamma".to_string());
    l.remove_task(2);
    let tasks = l.list_tasks();
    assert_eq!(tasks.len(), 2);
    assert_eq!(tasks[0].title, "alpha");
    assert_eq!(tasks[1].title, "gamma");
    // Removal does not recycle ids.
    assert_eq!(l.next_task_id, 4);
}

#[test]
fn remove_task_with_unknown_id_changes_nothing() {
    let mut l = TaskList::new();
    l.add_task("alpha".to_string());
    l.remove_task(9);
    assert_eq!(l.list_tasks().len(), 1);
    assert_eq!(l.list_tasks()[0].title, "alpha");
}

#[test]
fn get_task_finds_by_id() {
    let mut l = TaskList::new();
    l.add_task("alpha".to_string());
    l.add_task("beta".to_string());
    let t = l.get_task(2).expect("id 2 was added");
    assert_eq!(t.title, "beta");
    assert!(l.get_task(3).is_none());
}

#[test]
fn complete_task_marks_only_the_named_task() {
    let mut l = TaskList::new();
    l.add_task("alpha".to_string());
    l.add_task("beta".to_string());
    assert!(l.complete_task(2));
    assert!(!l.list_tasks()[0].completed);
    assert!(l.list_tasks()[1].completed);
    assert!(!l.complete_task(9));
}

#[test]
fn empty_list_has_no_tasks() {
    let l = TaskList::new();
    assert_eq!(l.list_tasks().len(), 0);
    assert_eq!(l.next_task_id, 1);
    assert!(l.get_task(1).is_none());
}
