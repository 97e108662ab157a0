use rain::resources::{
    check_worker_sources, check_workers_given, cpus_from, host_entry, next_poll_timeout, worker_cpus, CpuError,
    LaunchError,
};
use rain::upstream::{EventError, EventLog, EventRecord, Timestamp, WorkerUpstreamImpl};

#[test]
fn cpu_count_rules() {
    assert_eq!(cpus_from(Some(4), 8), Ok(4));
    assert_eq!(cpus_from(Some(0), 8), Err(CpuError::NotPositive));
    assert_eq!(cpus_from(Some(-2), 8), Ok(6));
    assert_eq!(cpus_from(Some(-8), 8), Err(CpuError::NoneLeft { detected: 8, subtracted: 8 }));
    assert_eq!(cpus_from(None, 8), Ok(8));
    assert_eq!(cpus_from(None, 0), Err(CpuError::NoneLeft { detected: 0, subtracted: 0 }));
}

#[test]
fn worker_cpus_detects() {
    assert_eq!(worker_cpus(Some(3)), Ok(3));
    assert_eq!(worker_cpus(Some(0)), Err(CpuError::NotPositive));
    let n = worker_cpus(None).unwrap();
    assert!(n >= 1);
    assert_eq!(n as usize, num_cpus::get());
}

#[test]
fn launch_checks() {
    assert_eq!(check_worker_sources(2, true), Err(LaunchError::LocalAndRemote));
    assert_eq!(check_worker_sources(2, false), Ok(()));
    assert_eq!(check_worker_sources(0, true), Ok(()));
    assert_eq!(check_workers_given(0, 0), Err(LaunchError::NoWorkers));
    assert_eq!(check_workers_given(0, 3), Ok(()));
    assert_eq!(next_poll_timeout(50), 100);
    assert_eq!(next_poll_timeout(1450), 1500);
    assert_eq!(next_poll_timeout(1500), 1500);
}

fn record(seconds: i64, subsec_nanos: u32, event: &str) -> EventRecord {
    EventRecord { timestamp: Timestamp { seconds, subsec_nanos }, event: event.to_string() }
}

#[test]
fn events_are_logged_with_their_time() {
    let upstream = WorkerUpstreamImpl::new(1);
    let mut log = EventLog::new();
    let events = vec![record(1431648000, 5, "{\"type\": \"x\"}"), record(0, 0, "[1, 2]")];
    assert_eq!(upstream.push_events(&mut log, events), Ok(2));
    assert_eq!(log.events.len(), 2);
    assert_eq!(log.events[0].timestamp, Timestamp { seconds: 1431648000, subsec_nanos: 5 });
    assert_eq!(log.events[0].value["type"], "x");
    assert_eq!(log.events[1].text, "[1, 2]");
}

#[test]
fn invalid_events_refuse_the_batch() {
    let upstream = WorkerUpstreamImpl::new(1);
    let mut log = EventLog::new();
    let bad_json = vec![record(10, 0, "{}"), record(10, 0, "not json")];
    assert_eq!(upstream.push_events(&mut log, bad_json), Err(EventError::InvalidEvent(1)));
    let bad_time = vec![record(10, 2_000_000_000, "{}")];
    assert_eq!(upstream.push_events(&mut log, bad_time), Err(EventError::InvalidTimestamp(0)));
    let bad_leap = vec![record(10, 1_500_000_000, "{}")];
    assert_eq!(upstream.push_events(&mut log, bad_leap), Err(EventError::InvalidTimestamp(0)));
    let leap = vec![record(59, 1_500_000_000, "{}")];
    assert_eq!(upstream.push_events(&mut log, leap), Ok(1));
    let too_late = vec![record(8_210_266_876_800, 0, "{}")];
    assert_eq!(upstream.push_events(&mut log, too_late), Err(EventError::InvalidTimestamp(0)));
    let last = vec![record(8_210_266_876_799, 0, "{}"), record(-8_334_601_228_800, 0, "{}")];
    assert_eq!(upstream.push_events(&mut log, last), Ok(2));
    let too_early = vec![record(-8_334_601_228_801, 0, "{}")];
    assert_eq!(upstream.push_events(&mut log, too_early), Err(EventError::InvalidTimestamp(0)));
    assert_eq!(log.events.len(), 3);
}

#[test]
fn host_file_lines() {
    assert_eq!(host_entry("  node1 \t"), Some("node1".to_string()));
    assert_eq!(host_entry("node2"), Some("node2".to_string()));
    assert_eq!(host_entry("   "), None);
    assert_eq!(host_entry(""), None);
    assert_eq!(host_entry("  # comment"), None);
    assert_eq!(host_entry("a b"), Some("a b".to_string()));
    assert_eq!(host_entry("\u{a0}node3\u{c}"), Some("node3".to_string()));
    assert_eq!(host_entry("\u{b}#x"), None);
}
