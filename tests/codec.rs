use task_prioritizer::codec::{load, save};
use task_prioritizer::store::TaskStore;
use task_prioritizer::task::Priority;

#[test]
fn save_writes_one_line_per_task_in_store_order() {
    let mut s = TaskStore::new();
    s.append("Buy milk".to_string(), Priority::Low);
    s.append("Call Bob".to_string(), Priority::High);
    s.mark_complete(2).unwrap();
    assert_eq!(save(&s), "Buy milk,Low,false\nCall Bob,High,true\n");
}

#[test]
fn save_of_empty_store_is_empty() {
    assert_eq!(save(&TaskStore::new()), "");
}

#[test]
fn round_trip_keeps_every_task() {
    let mut s = TaskStore::new();
    s.append("Buy milk".to_string(), Priority::High);
    s.append("".to_string(), Priority::Low);
    s.append("write report ".to_string(), Priority::Medium);
    s.mark_complete(3).unwrap();
    let back = load(&save(&s));
    assert_eq!(back.len(), s.len());
    for i in 0..s.len() {
        assert_eq!(back.get(i).description, s.get(i).description);
        assert_eq!(back.get(i).priority, s.get(i).priority);
        assert_eq!(back.get(i).completed, s.get(i).completed);
    }
}

#[test]
fn load_skips_unknown_priority() {
    let s = load("Buy milk,High,false\nX,Purple,true\n");
    assert_eq!(s.len(), 1);
    assert_eq!(s.get(0).description, "Buy milk");
    assert_eq!(s.get(0).priority, Priority::High);
    assert!(!s.get(0).completed);
}

#[test]
fn load_skips_lines_with_wrong_field_count() {
    let s = load("a,Low\nb,Low,true,extra\n\n   \nc,Medium,true");
    assert_eq!(s.len(), 1);
    assert_eq!(s.get(0).description, "c");
    assert_eq!(s.get(0).priority, Priority::Medium);
    assert!(s.get(0).completed);
}

#[test]
fn load_priority_is_case_sensitive() {
    let s = load("a,low,true\nb,HIGH,true\n");
    assert_eq!(s.len(), 0);
}

#[test]
fn load_completed_only_for_exact_true() {
    let s = load("a,Low,True\nb,Low,TRUE\nc,Low,yes\nd,Low,true\n");
    assert_eq!(s.len(), 4);
    assert!(!s.get(0).completed);
    assert!(!s.get(1).completed);
    assert!(!s.get(2).completed);
    assert!(s.get(3).completed);
}

#[test]
fn load_trims_lines_and_inner_fields() {
    let s = load("  walk dog , High , true \r\n");
    assert_eq!(s.len(), 1);
    assert_eq!(s.get(0).description, "walk dog ");
    assert_eq!(s.get(0).priority, Priority::High);
    assert!(s.get(0).completed);
}

#[test]
fn load_keeps_file_order() {
    let s = load("z,Low,false\ny,High,false\nx,Medium,true\n");
    assert_eq!(s.len(), 3);
    assert_eq!(s.get(0).description, "z");
    assert_eq!(s.get(1).description, "y");
    assert_eq!(s.get(2).description, "x");
}

#[test]
fn load_of_empty_text_is_empty() {
    assert!(load("").is_empty());
}

#[test]
fn load_non_ascii_description() {
    let s = load("café ☕,Medium,false\n");
    assert_eq!(s.len(), 1);
    assert_eq!(s.get(0).description, "café ☕");
}
