use aegis_proxy::master::{ConnectionCounter, CrashTracker, MasterProcess};

#[test]
fn test_master_worker_registration() {
    let mut master = MasterProcess::new(4, 1000);
    assert_eq!(master.worker_count(), 0);
    assert!(master.needs_more_workers());
    master.register_worker(1001, Some(0));
    master.register_worker(1002, Some(1));
    assert_eq!(master.worker_count(), 2);
    assert!(master.needs_more_workers());
}

#[test]
fn test_master_remove_worker() {
    let mut master = MasterProcess::new(4, 1000);
    master.register_worker(1001, Some(0));
    let removed = master.remove_worker(1001);
    assert!(removed.is_some());
    assert_eq!(removed.unwrap().pid, 1001);
    assert_eq!(master.worker_count(), 0);
}

#[test]
fn test_connection_counter() {
    let mut counter = ConnectionCounter::new(2);
    assert!(counter.try_acquire());
    assert!(counter.try_acquire());
    assert!(!counter.try_acquire());
    counter.release();
    assert!(counter.try_acquire());
}

#[test]
fn test_crash_tracker() {
    let mut tracker = CrashTracker::new(3, 60);
    assert!(!tracker.should_stop_respawning());
    tracker.record_crash();
    tracker.record_crash();
    assert!(!tracker.should_stop_respawning());
    tracker.record_crash();
    assert!(tracker.should_stop_respawning());
}

#[test]
fn master_register_ids_and_missing_pid() {
    let mut master = MasterProcess::new(1, 10);
    assert_eq!(master.register_worker(7, None), 0);
    assert_eq!(master.register_worker(8, None), 1);
    assert!(!master.needs_more_workers());
    assert!(master.remove_worker(9).is_none());
    assert_eq!(master.remove_worker(8).unwrap().id, 1);
    assert_eq!(master.worker_count(), 1);
}

#[test]
fn crash_tracker_forgets_with_zero_window() {
    let mut tracker = CrashTracker::new(2, 0);
    tracker.record_crash();
    tracker.record_crash();
    assert!(!tracker.should_stop_respawning());
}

#[test]
fn master_crash_ages_decide_what_is_kept() {
    let now = std::time::Instant::now();
    let mut tracker = CrashTracker::new(3, 60);
    tracker.record_crash_at(now, &vec![]);
    tracker.record_crash_at(now, &vec![5]);
    assert!(!tracker.should_stop_respawning());
    // the first crash is 90 s old, the second 10 s: only the second stays
    tracker.record_crash_at(now, &vec![90, 10]);
    assert!(!tracker.should_stop_respawning());
    tracker.record_crash_at(now, &vec![30, 0]);
    assert!(tracker.should_stop_respawning());
}
