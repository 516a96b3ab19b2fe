//! The reports of a watchdog.

use detector::graph::{Node, WaitForGraph};
use detector::monitor::{TaskInfo, TaskRegistry};
use detector::watchdog::{
    cycle_tasks, deadlock_report, sample_interval, WatchdogBuilder, MIN_INTERVAL_MS,
};

#[test]
fn the_interval_is_at_least_ten_milliseconds() {
    assert_eq!(MIN_INTERVAL_MS, 10);
    assert_eq!(sample_interval(0), 10);
    assert_eq!(sample_interval(9), 10);
    assert_eq!(sample_interval(10), 10);
    assert_eq!(sample_interval(50), 50);
}

#[test]
fn the_builder_takes_the_last_setting() {
    let w = WatchdogBuilder::new().stall_threshold_ms(200).sample_interval_ms(50);
    assert_eq!((w.stall_ms, w.interval_ms), (200, 50));
    let w = w.stall_threshold_ms(300);
    assert_eq!((w.stall_ms, w.interval_ms), (300, 50));
    let w = WatchdogBuilder::default();
    assert_eq!((w.stall_ms, w.interval_ms), (0, 0));
}

#[test]
fn the_tasks_of_a_cycle_are_those_registered() {
    let mut registry = TaskRegistry::new();
    let a = registry.register_at(TaskInfo::unknown_at(0), 1);
    let b = registry.register_at(TaskInfo::unknown_at(0), 2);
    let cycle = vec![
        Node::Lock("x".into()),
        Node::Task(b),
        Node::Task(99),
        Node::Lock("y".into()),
        Node::Task(a),
    ];
    let ids: Vec<u64> = cycle_tasks(&cycle, &registry).iter().map(|t| t.id).collect();
    assert_eq!(ids, vec![b, a]);
    assert!(cycle_tasks(&Vec::new(), &registry).is_empty());
}

#[test]
fn a_cycle_without_registered_tasks_is_reported() {
    let mut registry = TaskRegistry::new();
    let mut graph = WaitForGraph::new();
    assert!(deadlock_report(&graph, &registry).is_none());
    graph.add_edge(Node::Task(0), Node::Lock("x".into()));
    graph.add_edge(Node::Lock("x".into()), Node::Task(0));
    let (tasks, cycle) = deadlock_report(&graph, &registry).unwrap();
    assert!(tasks.is_empty());
    assert_eq!(cycle.len(), 2);
    assert!(cycle.contains(&Node::Task(0)));

    graph.clear();
    graph.add_edge(Node::Task(1), Node::Lock("x".into()));
    graph.add_edge(Node::Lock("x".into()), Node::Task(1));
    assert_eq!(registry.register_at(TaskInfo::unknown_at(0), 1), 1);
    let (tasks, cycle) = deadlock_report(&graph, &registry).unwrap();
    assert_eq!(tasks.len(), 1);
    assert_eq!(tasks[0].id, 1);
    assert_eq!(cycle.len(), 2);
}
