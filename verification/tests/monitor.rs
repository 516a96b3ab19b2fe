//! The registry of tasks and the futures that report to it.

use detector::clock::{millis_of, now_millis};
use detector::monitor::{
    spawn_blocking_monitored, spawn_monitored, stall_report, stalled_tasks, MonitorFuture,
    TaskInfo, TaskRegistry,
};
use detector::text::format_location;
use std::collections::HashSet;

fn named(name: &str, last_progress_ms: u64) -> TaskInfo {
    TaskInfo {
        id: 0,
        name: name.into(),
        polls: 0,
        last_progress_ms,
        location: None,
        is_blocking: false,
    }
}

#[test]
fn test_registry_register_and_snapshot() {
    let mut registry = TaskRegistry::new();

    let info = TaskInfo::default();
    let id = registry.register(info.clone());

    let snap = registry.snapshot();
    assert_eq!(snap.len(), 1);
    assert_eq!(snap[0].id, id);
}

#[test]
fn test_registry_touch_updates_timestamp() {
    let mut registry = TaskRegistry::new();

    let info = TaskInfo::default();
    let id = registry.register(info.clone());
    let before = registry.get(id).unwrap().last_progress_ms;

    while now_millis() < before + 5 {}
    registry.touch(id);

    let after = registry.get(id).unwrap().last_progress_ms;
    assert!(after > before);
}

#[test]
fn test_registry_deregister() {
    let mut registry = TaskRegistry::new();

    let id = registry.register(TaskInfo::default());
    assert!(registry.get(id).is_some());

    registry.deregister(id);
    assert!(registry.get(id).is_none());
}

#[test]
fn test_monitorfuture_counts_polls_and_deregisters() {
    let mut registry = TaskRegistry::new();

    let info = TaskInfo::default();
    let mut mon = MonitorFuture::new(123, 0, info.clone());

    // pending
    assert_eq!(mon.begin_poll(&mut registry, 1_000), 1);
    mon.finish_poll(&mut registry, false, 1_001);
    let task = registry.get(1).unwrap();
    assert_eq!((task.id, task.polls, task.last_progress_ms), (1, 1, 1_000));
    assert_eq!(task.name, "<unknown>");

    // ready
    assert_eq!(mon.begin_poll(&mut registry, 2_000), 1);
    assert_eq!(registry.get(1).unwrap().polls, 2);
    mon.finish_poll(&mut registry, true, 2_001);
    assert_eq!(mon.inner, 123);
    assert_eq!((mon.task_id, mon.info.polls, mon.info.last_progress_ms), (1, 2, 2_000));

    // After completion, task must be removed.
    assert!(registry.snapshot().is_empty());
}

#[test]
fn test_spawn_monitored_registers_and_deregisters() {
    let mut registry = TaskRegistry::new();

    let mut mon = spawn_monitored(
        &mut registry,
        "test-task".to_string(),
        "src/main.rs",
        12,
        5,
        42,
        100,
    );

    // Immediately after spawn, task should be in registry
    let snap = registry.snapshot();
    assert_eq!(snap.len(), 1);
    assert_eq!(snap[0].id, 1);

    assert_eq!(snap[0].name, "test-task");
    assert!(!snap[0].is_blocking);
    assert_eq!(snap[0].location, Some("src/main.rs:12:5".to_string()));
    assert_eq!(mon.info.id, 1);
    assert_eq!(mon.info.name, "test-task");

    assert_eq!(mon.begin_poll(&mut registry, 101), 1);
    mon.finish_poll(&mut registry, true, 102);
    assert_eq!(mon.inner, 42);

    // It should be removed after completion
    assert!(registry.snapshot().is_empty());
}

#[test]
fn test_spawn_blocking_monitored() {
    let mut registry = TaskRegistry::new();

    let id = spawn_blocking_monitored(&mut registry, "block".to_string(), "a.rs", 1, 2, 50);

    // Immediately after spawn, it should exist
    let snap = registry.snapshot();
    assert_eq!(snap.len(), 1);
    assert!(snap[0].is_blocking);
    assert_eq!(snap[0].id, id);
    assert_eq!(snap[0].location, Some("a.rs:1:2".to_string()));

    registry.touch_at(id, 60);
    assert_eq!(registry.get(id).unwrap().last_progress_ms, 60);
    registry.complete(id, 777);

    // After completing, it should be removed
    assert!(registry.snapshot().is_empty());
}

#[test]
fn lib_test_spawn_blocking_monitored_registers() {
    let mut registry = TaskRegistry::new();
    let id = spawn_blocking_monitored(
        &mut registry,
        "blocker".to_string(),
        "lib.rs",
        59,
        22,
        now_millis(),
    );

    let snap = registry.snapshot();

    registry.touch(id);
    registry.complete(id, now_millis());

    // registry should have recorded a task with name "blocker"
    assert!(snap.iter().any(|t| t.name == "blocker"));
}

#[test]
fn test_watchdog_detects_stalled_tasks() {
    let mut registry = TaskRegistry::new();

    // Register a task with an artificially old timestamp
    let now = now_millis();
    let info = named("stall-me", now - 10_000);
    let id = registry.register_at(info.clone(), now);

    // stall_ms = 50 ms
    assert!(stall_report(&registry, now, 50).is_none());
    assert!(stall_report(&registry, now + 50, 50).is_none());
    let stalled = stall_report(&registry, now + 60, 50).unwrap();
    assert_eq!(stalled.len(), 1);
    assert_eq!(stalled[0].id, id);
    assert_eq!(stalled[0].name, "stall-me");
}

#[test]
fn short_task_not_reported_as_stalled() {
    let mut registry = TaskRegistry::new();
    let mut short =
        spawn_monitored(&mut registry, "short_task".to_string(), "lib.rs", 40, 17, 7usize, 0);
    short.begin_poll(&mut registry, 0);
    short.finish_poll(&mut registry, false, 0);
    short.begin_poll(&mut registry, 30);
    short.finish_poll(&mut registry, true, 30);
    assert_eq!(short.inner, 7usize);
    for now in [50, 100, 150, 200, 250, 300, 350] {
        assert!(stall_report(&registry, now, 200).is_none());
    }
}

#[test]
fn test_spawn_monitored_progress_and_watchdog() {
    let mut registry = TaskRegistry::new();
    let mut captured = Vec::new();
    let mut short =
        spawn_monitored(&mut registry, "short".to_string(), "t.rs", 26, 18, 42usize, 0);
    // yields, sleeps for 30 ms and finishes, sampled every 50 ms with a threshold of 200 ms
    short.begin_poll(&mut registry, 0);
    short.finish_poll(&mut registry, false, 0);
    short.begin_poll(&mut registry, 1);
    short.finish_poll(&mut registry, false, 1);
    short.begin_poll(&mut registry, 30);
    short.finish_poll(&mut registry, true, 30);
    assert_eq!(short.inner, 42usize);
    for sample in 1..7 {
        if let Some(stalled) = stall_report(&registry, sample * 50, 200) {
            captured.push(stalled);
        }
    }
    let was_short_stalled = captured.iter().flatten().any(|t| t.name == "short");
    assert!(!was_short_stalled, "short task should not be reported as stalled");
}

#[test]
fn default_info_is_unknown() {
    let before = now_millis();
    let info = TaskInfo::default();
    assert_eq!(info.id, 0);
    assert_eq!(info.name, "<unknown>");
    assert_eq!(info.polls, 0);
    assert!(info.last_progress_ms >= before);
    assert_eq!(info.location, None);
    assert!(!info.is_blocking);
    assert_eq!(TaskInfo::unknown_at(17).last_progress_ms, 17);
}

#[test]
fn info_records_progress_and_polls() {
    let mut info = named("task", 5);
    info.touch_at(9);
    assert_eq!((info.polls, info.last_progress_ms), (0, 9));
    info.record_poll(11);
    assert_eq!((info.polls, info.last_progress_ms), (1, 11));
    info.polls = u64::MAX;
    info.record_poll(12);
    assert_eq!(info.polls, 0);
    let before = now_millis();
    info.touch();
    assert!(info.last_progress_ms >= before);
    let copy = info.clone();
    assert_eq!((copy.name, copy.polls), ("task".to_string(), 0));
}

#[test]
fn ids_are_given_out_in_order_and_not_again() {
    let mut registry = TaskRegistry::new();
    assert_eq!(registry.register_at(named("a", 0), 10), 1);
    assert_eq!(registry.register_at(named("b", 0), 10), 2);
    registry.deregister(2);
    assert_eq!(registry.register_at(named("c", 0), 10), 3);
    let names: HashSet<String> = registry.snapshot().into_iter().map(|t| t.name).collect();
    let expected: HashSet<String> = vec!["a".to_string(), "c".to_string()].into_iter().collect();
    assert_eq!(names, expected);
    assert_eq!(registry.get(3).unwrap().last_progress_ms, 10);
    assert!(registry.get(0).is_none());
}

#[test]
fn unknown_ids_change_nothing() {
    let mut registry = TaskRegistry::new();
    registry.register_at(named("a", 0), 10);
    registry.touch_at(9, 99);
    registry.record_poll(9, 99);
    registry.deregister(9);
    let snap = registry.snapshot();
    assert_eq!(snap.len(), 1);
    assert_eq!((snap[0].polls, snap[0].last_progress_ms), (0, 10));
    assert!(registry.get(9).is_none());
}

#[test]
fn registration_is_undone_by_deregistration() {
    let mut registry = TaskRegistry::new();
    registry.register_at(named("a", 0), 10);
    let id = registry.register_at(named("b", 0), 20);
    registry.deregister(id);
    let snap = registry.snapshot();
    assert_eq!(snap.len(), 1);
    assert_eq!((snap[0].id, snap[0].last_progress_ms), (1, 10));
}

#[test]
fn an_assigned_future_is_not_registered_again() {
    let mut registry = TaskRegistry::new();
    let id = registry.register_at(named("a", 0), 10);
    let mut mon = MonitorFuture::new((), id, registry.get(id).unwrap());
    assert_eq!(mon.begin_poll(&mut registry, 20), id);
    assert_eq!(registry.snapshot().len(), 1);
    let task = registry.get(id).unwrap();
    assert_eq!((task.polls, task.last_progress_ms), (mon.info.polls, mon.info.last_progress_ms));
    assert_eq!((task.polls, task.last_progress_ms), (1, 20));
}

#[test]
fn polls_count_in_the_task_whose_info_it_is() {
    let mut registry = TaskRegistry::new();
    let id = registry.register_at(named("a", 0), 10);
    // an info of its own: the registry stays as it is
    let mut mon = MonitorFuture::new((), id, named("b", 0));
    assert_eq!(mon.begin_poll(&mut registry, 20), id);
    assert_eq!((mon.info.polls, mon.info.last_progress_ms), (1, 20));
    let task = registry.get(id).unwrap();
    assert_eq!((task.polls, task.last_progress_ms), (0, 10));
    // ready: the assigned task leaves
    mon.finish_poll(&mut registry, true, 21);
    assert!(registry.get(id).is_none());
}

#[test]
fn a_ready_task_leaves_the_others() {
    let mut registry = TaskRegistry::new();
    let other = registry.register_at(named("other", 0), 10);
    let mut mon = spawn_monitored(&mut registry, "t".to_string(), "t.rs", 1, 2, (), 20);
    for now in [30, 40, 50] {
        mon.begin_poll(&mut registry, now);
        mon.finish_poll(&mut registry, now == 50, now);
    }
    let snap = registry.snapshot();
    assert_eq!(snap.len(), 1);
    assert_eq!((snap[0].id, snap[0].polls, snap[0].last_progress_ms), (other, 0, 10));
}

#[test]
fn stalled_tasks_keep_their_order() {
    let snap = vec![named("old", 0), named("new", 95), named("edge", 50), named("future", 200)];
    let stalled = stalled_tasks(snap, 100, 49);
    let names: Vec<&str> = stalled.iter().map(|t| t.name.as_str()).collect();
    assert_eq!(names, vec!["old", "edge"]);
    assert!(stalled_tasks(vec![named("edge", 50)], 100, 50).is_empty());
    assert!(stalled_tasks(Vec::new(), 100, 0).is_empty());
}

#[test]
fn a_stalled_task_is_reported_until_it_makes_progress() {
    let mut registry = TaskRegistry::new();
    let id = registry.register_at(named("a", 0), 0);
    registry.register_at(named("b", 0), 1_000);
    let report = stall_report(&registry, 1_001, 200).unwrap();
    assert_eq!(report.len(), 1);
    assert_eq!(report[0].id, id);
    assert_eq!(stall_report(&registry, 2_000, 100).unwrap().len(), 2);
    registry.touch_at(id, 1_000);
    assert!(stall_report(&registry, 1_001, 200).is_none());
}

#[test]
fn locations_are_written_in_decimal() {
    assert_eq!(format_location("src/a.rs", 0, 7), "src/a.rs:0:7");
    assert_eq!(format_location("", 10, 1_234_567_890), ":10:1234567890");
    assert_eq!(format_location("x", u32::MAX, 98_765), "x:4294967295:98765");
}

#[test]
fn clock_readings_are_turned_into_milliseconds() {
    assert_eq!(millis_of(None), 0);
    assert_eq!(millis_of(Some((0, 999_999))), 0);
    assert_eq!(millis_of(Some((1, 2_000_000))), 1_002);
    assert_eq!(millis_of(Some((1_700_000_000, 123_456_789))), 1_700_000_000_123);
    // 2^64 * 1000 - 1000 + 999, modulo 2^64
    assert_eq!(millis_of(Some((u64::MAX, 999_999_999))), u64::MAX);
}

#[test]
fn the_clock_is_after_its_epoch_and_runs() {
    let first = now_millis();
    assert!(first > 1_600_000_000_000);
    while now_millis() <= first {}
    assert!(now_millis() > first);
}
