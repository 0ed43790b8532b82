use task_prioritizer::store::{StoreError, TaskStore};
use task_prioritizer::task::{Priority, Task};

fn descriptions(tasks: &[Task]) -> Vec<String> {
    tasks.iter().map(|t| t.description.clone()).collect()
}

fn two_tasks() -> TaskStore {
    let mut s = TaskStore::new();
    s.append("first".to_string(), Priority::Low);
    s.append("second".to_string(), Priority::High);
    s
}

#[test]
fn new_task_is_pending() {
    let t = Task::new("Buy milk".to_string(), Priority::High);
    assert_eq!(t.description, "Buy milk");
    assert_eq!(t.priority, Priority::High);
    assert!(!t.completed);
    assert_eq!(t.status_name(), "Pending");
}

#[test]
fn append_returns_the_new_task_and_keeps_order() {
    let mut s = TaskStore::new();
    assert!(s.is_empty());
    let t = s.append("a".to_string(), Priority::Medium);
    assert_eq!(t.description, "a");
    assert_eq!(t.priority, Priority::Medium);
    assert!(!t.completed);
    s.append("b".to_string(), Priority::Low);
    assert_eq!(s.len(), 2);
    assert_eq!(s.get(0).description, "a");
    assert_eq!(s.get(1).description, "b");
}

#[test]
fn display_order_is_stable_by_rank() {
    let mut s = TaskStore::new();
    s.append("A".to_string(), Priority::Low);
    s.append("B".to_string(), Priority::High);
    s.append("C".to_string(), Priority::High);
    s.append("D".to_string(), Priority::Medium);
    let d = s.display_order();
    assert_eq!(descriptions(&d), vec!["B", "C", "D", "A"]);
    // the store keeps insertion order
    assert_eq!(s.get(0).description, "A");
    assert_eq!(s.get(3).description, "D");
}

#[test]
fn display_order_of_empty_store_is_empty() {
    let s = TaskStore::new();
    assert!(s.display_order().is_empty());
}

#[test]
fn mark_complete_out_of_range_changes_nothing() {
    let mut s = two_tasks();
    assert_eq!(s.mark_complete(99), Err(StoreError::InvalidIndex));
    assert_eq!(s.len(), 2);
    assert!(!s.get(0).completed);
    assert!(!s.get(1).completed);
}

#[test]
fn mark_complete_rejects_index_equal_to_length_plus_one_and_zero() {
    let mut s = two_tasks();
    assert_eq!(s.mark_complete(3), Err(StoreError::InvalidIndex));
    assert_eq!(s.mark_complete(0), Err(StoreError::InvalidIndex));
    assert!(!s.get(0).completed);
    assert!(!s.get(1).completed);
    assert_eq!(s.mark_complete(2), Ok(()));
    assert!(s.get(1).completed);
}

#[test]
fn mark_complete_twice_reports_already_completed() {
    let mut s = two_tasks();
    assert_eq!(s.mark_complete(1), Ok(()));
    assert!(s.get(0).completed);
    assert_eq!(s.get(0).status_name(), "Completed");
    assert_eq!(s.mark_complete(1), Err(StoreError::AlreadyCompleted));
    assert!(s.get(0).completed);
    assert!(!s.get(1).completed);
}

#[test]
fn change_priority_overwrites_even_with_same_value() {
    let mut s = two_tasks();
    assert_eq!(s.change_priority(1, Priority::High), Ok(()));
    assert_eq!(s.get(0).priority, Priority::High);
    assert_eq!(s.change_priority(1, Priority::High), Ok(()));
    assert_eq!(s.get(0).priority, Priority::High);
    assert_eq!(s.get(1).priority, Priority::High);
    assert_eq!(s.change_priority(2, Priority::Low), Ok(()));
    assert_eq!(s.get(1).priority, Priority::Low);
}

#[test]
fn change_priority_invalid_index() {
    let mut s = two_tasks();
    assert_eq!(s.change_priority(3, Priority::Medium), Err(StoreError::InvalidIndex));
    assert_eq!(s.change_priority(0, Priority::Medium), Err(StoreError::InvalidIndex));
    assert_eq!(s.get(0).priority, Priority::Low);
    assert_eq!(s.get(1).priority, Priority::High);
}

#[test]
fn priority_rank_and_names() {
    assert_eq!(Priority::High.rank(), 1);
    assert_eq!(Priority::Medium.rank(), 2);
    assert_eq!(Priority::Low.rank(), 3);
    assert_eq!(Priority::Low.name(), "Low");
    assert_eq!(Priority::Medium.name(), "Medium");
    assert_eq!(Priority::High.name(), "High");
}

#[test]
fn priority_selector() {
    assert_eq!(Priority::from_selector(1), (Priority::Low, true));
    assert_eq!(Priority::from_selector(2), (Priority::Medium, true));
    assert_eq!(Priority::from_selector(3), (Priority::High, true));
    assert_eq!(Priority::from_selector(0), (Priority::Medium, false));
    assert_eq!(Priority::from_selector(7), (Priority::Medium, false));
    assert_eq!(Priority::from_selector(-1), (Priority::Medium, false));
}
