use katas::another_to_do_list;
use katas::to_do_list::ToDoList;

fn lines(list: &ToDoList) -> Vec<String> {
    list.render()
}

#[test]
fn insert_keeps_ascending_priority_and_tie_order() {
    let mut list = ToDoList::new();
    assert!(list.add_task("A", 2).is_ok());
    assert!(list.add_task("B", 1).is_ok());
    assert_eq!(lines(&list), vec!["[ ] 1 - B", "[ ] 2 - A"]);
    assert!(list.add_task("C", 2).is_ok());
    assert_eq!(lines(&list), vec!["[ ] 1 - B", "[ ] 2 - A", "[ ] 2 - C"]);
}

#[test]
fn add_task_rejects_long_description_and_leaves_list_unchanged() {
    let mut list = ToDoList::new();
    assert!(list.add_task("ok", 3).is_ok());
    let before = lines(&list);
    let long = "x".repeat(41);
    assert_eq!(list.add_task(&long, 3), Err("Description is too long"));
    assert_eq!(lines(&list), before);
    let edge = "y".repeat(40);
    assert!(list.add_task(&edge, 3).is_ok());
}

#[test]
fn add_task_rejects_priority_out_of_range() {
    let mut list = ToDoList::new();
    assert_eq!(list.add_task("task", 0), Err("Priority must be between 1 and 5"));
    assert_eq!(list.add_task("task", 6), Err("Priority must be between 1 and 5"));
    assert!(lines(&list).is_empty());
    assert!(list.add_task("task", 1).is_ok());
    assert!(list.add_task("task", 5).is_ok());
}

#[test]
fn mark_done_marks_only_the_first_undone_match() {
    let mut list = ToDoList::new();
    assert!(list.add_task("X", 1).is_ok());
    assert!(list.add_task("Y", 2).is_ok());
    list.mark_done("X");
    list.mark_done("X");
    assert_eq!(lines(&list), vec!["[X] 1 - X", "[ ] 2 - Y"]);
}

#[test]
fn mark_done_twice_reaches_the_second_duplicate() {
    let mut list = ToDoList::new();
    assert!(list.add_task("X", 1).is_ok());
    assert!(list.add_task("X", 2).is_ok());
    list.mark_done("X");
    assert_eq!(lines(&list), vec!["[X] 1 - X", "[ ] 2 - X"]);
    list.mark_done("X");
    assert_eq!(lines(&list), vec!["[X] 1 - X", "[X] 2 - X"]);
}

#[test]
fn mark_done_without_match_changes_nothing() {
    let mut list = ToDoList::new();
    assert!(list.add_task("A", 1).is_ok());
    list.mark_done("missing");
    assert_eq!(lines(&list), vec!["[ ] 1 - A"]);
}

#[test]
fn remove_done_removes_exactly_done_tasks_in_order() {
    let mut list = ToDoList::new();
    assert!(list.add_task("a", 1).is_ok());
    assert!(list.add_task("b", 2).is_ok());
    assert!(list.add_task("c", 2).is_ok());
    assert!(list.add_task("d", 3).is_ok());
    list.mark_done("b");
    list.mark_done("d");
    list.remove_done();
    assert_eq!(lines(&list), vec!["[ ] 1 - a", "[ ] 2 - c"]);
}

#[test]
fn merge_inserts_all_tasks_as_undone() {
    let mut list = ToDoList::new();
    assert!(list.add_task("Task3", 1).is_ok());
    assert!(list.add_task("Task1", 2).is_ok());
    assert!(list.add_task("Task2", 2).is_ok());
    assert!(list.add_task("Task5", 2).is_ok());
    assert!(list.add_task("Task4", 3).is_ok());
    assert_eq!(
        lines(&list),
        vec![
            "[ ] 1 - Task3",
            "[ ] 2 - Task1",
            "[ ] 2 - Task2",
            "[ ] 2 - Task5",
            "[ ] 3 - Task4",
        ],
    );

    let mut other = ToDoList::new();
    assert!(other.add_task("Task1", 1).is_ok());
    assert!(other.add_task("Task2", 2).is_ok());
    assert!(other.add_task("Task3", 3).is_ok());
    assert!(other.add_task("Task4", 4).is_ok());

    list.merge(&other);
    assert_eq!(
        lines(&list),
        vec![
            "[ ] 1 - Task3",
            "[ ] 1 - Task1",
            "[ ] 2 - Task1",
            "[ ] 2 - Task2",
            "[ ] 2 - Task5",
            "[ ] 2 - Task2",
            "[ ] 3 - Task4",
            "[ ] 3 - Task3",
            "[ ] 4 - Task4",
        ],
    );

    list.mark_done("Task1");
    list.mark_done("Task2");
    list.mark_done("Task2");
    list.remove_done();
    assert_eq!(
        lines(&list),
        vec![
            "[ ] 1 - Task3",
            "[ ] 2 - Task1",
            "[ ] 2 - Task5",
            "[ ] 3 - Task4",
            "[ ] 3 - Task3",
            "[ ] 4 - Task4",
        ],
    );
}

#[test]
fn merge_empty_lists_in_both_directions() {
    let mut list = ToDoList::new();
    let empty = ToDoList::new();
    list.merge(&empty);
    assert!(lines(&list).is_empty());
    assert!(list.add_task("solo", 3).is_ok());
    let mut target = ToDoList::new();
    target.merge(&list);
    assert_eq!(lines(&target), vec!["[ ] 3 - solo"]);
}

#[test]
fn second_list_variant_renders_its_own_format() {
    let mut list = another_to_do_list::ToDoList::new();
    assert!(list.add_task("write", 2).is_ok());
    assert!(list.add_task("read", 1).is_ok());
    list.mark_done("read");
    assert_eq!(list.render(), vec!["X [1] read", "  [2] write"]);
    list.remove_done();
    assert_eq!(list.render(), vec!["  [2] write"]);
}

#[test]
fn second_list_variant_validates_like_the_first() {
    let mut list = another_to_do_list::ToDoList::new();
    let long = "z".repeat(41);
    assert_eq!(list.add_task(&long, 2), Err("Description is too long"));
    assert_eq!(list.add_task("fine", 9), Err("Priority must be between 1 and 5"));
    assert!(list.render().is_empty());
}
