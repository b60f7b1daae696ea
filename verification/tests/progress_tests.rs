use deepseeker::models::IndexProgress;
use deepseeker::progress::ProgressTracker;

fn progress(total: usize) -> IndexProgress {
    IndexProgress {
        total_files: total,
        processed_files: 0,
        current_file: None,
        errors: Vec::new(),
        status: "indexing".to_string(),
    }
}

#[test]
fn a_fresh_tracker_knows_nothing() {
    let tracker = ProgressTracker::new();
    assert!(tracker.get(1).is_none());
    let tracker = ProgressTracker::default();
    assert!(tracker.get(0).is_none());
}

#[test]
fn update_and_get() {
    let mut tracker = ProgressTracker::new();
    tracker.update(7, progress(10));
    let got = tracker.get(7).unwrap();
    assert_eq!(got.total_files, 10);
    assert_eq!(got.processed_files, 0);
    assert_eq!(got.status, "indexing");
    assert!(tracker.get(8).is_none());
    tracker.update(7, progress(20));
    assert_eq!(tracker.get(7).unwrap().total_files, 20);
}

#[test]
fn changes_reach_only_the_record_named() {
    let mut tracker = ProgressTracker::new();
    tracker.update(1, progress(3));
    tracker.update(2, progress(4));
    tracker.increment_processed(1);
    tracker.increment_processed(1);
    tracker.update_current_file(1, Some("a.md".to_string()));
    tracker.add_error(1, "first".to_string());
    tracker.add_error(1, "second".to_string());
    let one = tracker.get(1).unwrap();
    assert_eq!(one.processed_files, 2);
    assert_eq!(one.total_files, 3);
    assert_eq!(one.current_file, Some("a.md".to_string()));
    assert_eq!(one.errors, vec!["first".to_string(), "second".to_string()]);
    let two = tracker.get(2).unwrap();
    assert_eq!(two.processed_files, 0);
    assert_eq!(two.current_file, None);
    assert!(two.errors.is_empty());
    tracker.update_current_file(1, None);
    assert_eq!(tracker.get(1).unwrap().current_file, None);
}

#[test]
fn changes_to_an_unknown_collection_do_nothing() {
    let mut tracker = ProgressTracker::new();
    tracker.increment_processed(5);
    tracker.update_current_file(5, Some("x".to_string()));
    tracker.add_error(5, "e".to_string());
    assert!(tracker.get(5).is_none());
}

#[test]
fn clear_drops_the_record() {
    let mut tracker = ProgressTracker::new();
    tracker.update(1, progress(3));
    tracker.update(2, progress(3));
    tracker.clear(1);
    tracker.clear(99);
    assert!(tracker.get(1).is_none());
    assert!(tracker.get(2).is_some());
}
