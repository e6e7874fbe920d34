use aegis_proxy::green_wait::{JobPriority, ScheduleResult};
use std::time::Duration;

fn wait(p: JobPriority) -> Duration {
    Duration::from_secs(p.max_wait_duration())
}

#[test]
fn test_job_priority_wait_times() {
    assert_eq!(wait(JobPriority::Critical), Duration::ZERO);
    assert_eq!(wait(JobPriority::High), Duration::from_secs(300));
    assert_eq!(wait(JobPriority::Normal), Duration::from_secs(1800));
    assert_eq!(wait(JobPriority::Low), Duration::from_secs(7200));
}

#[test]
fn test_background_priority_wait_time() {
    assert_eq!(wait(JobPriority::Background), Duration::from_secs(86400));
}

#[test]
fn test_job_priority_ordering() {
    assert!(JobPriority::Critical < JobPriority::High);
    assert!(JobPriority::High < JobPriority::Normal);
    assert!(JobPriority::Normal < JobPriority::Low);
    assert!(JobPriority::Low < JobPriority::Background);
}

#[test]
fn test_all_priority_wait_times() {
    assert_eq!(wait(JobPriority::Critical), Duration::ZERO);
    assert_eq!(wait(JobPriority::High), Duration::from_secs(300));
    assert_eq!(wait(JobPriority::Normal), Duration::from_secs(1800));
    assert_eq!(wait(JobPriority::Low), Duration::from_secs(7200));
}

#[test]
fn test_schedule_result_variants() {
    let queued = ScheduleResult::Queued { position: 5 };
    let executed = ScheduleResult::ExecutedImmediately;
    let disabled = ScheduleResult::Disabled;
    let full = ScheduleResult::QueueFull;
    let _ = format!("{:?}", queued);
    let _ = format!("{:?}", executed);
    let _ = format!("{:?}", disabled);
    let _ = format!("{:?}", full);
}

#[test]
fn test_job_priority_max_wait_duration() {
    assert_eq!(wait(JobPriority::Critical), Duration::ZERO);
    assert_eq!(wait(JobPriority::High), Duration::from_secs(5 * 60));
    assert_eq!(wait(JobPriority::Normal), Duration::from_secs(30 * 60));
    assert_eq!(wait(JobPriority::Low), Duration::from_secs(2 * 60 * 60));
    assert_eq!(wait(JobPriority::Background), Duration::from_secs(24 * 60 * 60));
}

#[test]
fn test_job_priority_comparison() {
    assert!(JobPriority::Critical < JobPriority::High);
    assert!(JobPriority::High < JobPriority::Normal);
    assert!(JobPriority::Normal < JobPriority::Low);
    assert!(JobPriority::Low < JobPriority::Background);
}

#[test]
fn test_job_priority_default() {
    let priority: JobPriority = Default::default();
    assert_eq!(priority, JobPriority::Normal);
}

#[test]
fn test_job_priority_debug() {
    let priority = JobPriority::Background;
    let debug = format!("{:?}", priority);
    assert!(debug.contains("Background"));
}

#[test]
fn test_job_priority_max_wait_critical() {
    let priority = JobPriority::Critical;
    assert_eq!(wait(priority), Duration::ZERO);
}

#[test]
fn test_job_priority_max_wait_high() {
    let priority = JobPriority::High;
    assert_eq!(wait(priority), Duration::from_secs(5 * 60));
}

#[test]
fn test_job_priority_max_wait_low() {
    let priority = JobPriority::Low;
    assert_eq!(wait(priority), Duration::from_secs(2 * 60 * 60));
}

#[test]
fn test_job_priority_max_wait_background() {
    let priority = JobPriority::Background;
    assert_eq!(wait(priority), Duration::from_secs(24 * 60 * 60));
}

#[test]
fn green_wait_rank_orders_waits() {
    let all = [
        JobPriority::Critical,
        JobPriority::High,
        JobPriority::Normal,
        JobPriority::Low,
        JobPriority::Background,
    ];
    for w in all.windows(2) {
        assert!(w[0].rank() < w[1].rank());
        assert!(w[0].max_wait_duration() < w[1].max_wait_duration());
    }
}
