//! What monitored mutexes tell the wait-for graph.

use detector::graph::{Node, WaitForGraph};
use detector::monitor::{spawn_monitored, TaskRegistry};
use detector::monitored_mutex::MonitoredMutex;
use detector::rewrite::{collect_rewrite_aliases, SpawnRewriter, SpawnTarget, Stmt};
use detector::watchdog::deadlock_report;
use tokio::sync::Mutex as TokioMutex;

fn mutex(name: &str) -> MonitoredMutex<usize> {
    MonitoredMutex::new(TokioMutex::new(0), name.to_string())
}

#[test]
fn test_lock_adds_wait_and_acquire_edges() {
    let mut graph = WaitForGraph::new();
    let m = MonitoredMutex::new(TokioMutex::new(5usize), "L1".to_string());

    m.begin_lock(&mut graph, 1);
    assert!(graph.has_edge(&Node::Task(1), &Node::Lock("L1".into())));
    let owned = m.inner.clone().try_lock_owned().unwrap();
    let g = m.finish_lock(&mut graph, 1, owned);

    assert!(graph.has_edge(&Node::Lock("L1".into()), &Node::Task(1)));
    assert!(!graph.has_edge(&Node::Task(1), &Node::Lock("L1".into())));
    assert_eq!(*g.inner, 5);
}

#[test]
fn test_drop_removes_edges() {
    let mut graph = WaitForGraph::new();
    let m = mutex("Lx");

    m.begin_lock(&mut graph, 1);
    let owned = m.inner.clone().try_lock_owned().unwrap();
    let g = m.finish_lock(&mut graph, 1, owned);
    g.release(&mut graph);

    assert!(!graph.has_any_edges_with(&Node::Lock("Lx".into())));
    assert!(graph.nodes().is_empty());
}

#[test]
fn test_two_tasks_wait_on_same_mutex_order_preserved() {
    let mut graph = WaitForGraph::new();
    let m = mutex("Lw");

    // Acquire by task 1
    m.begin_lock(&mut graph, 1);
    let owned = m.inner.clone().try_lock_owned().unwrap();
    let g1 = m.finish_lock(&mut graph, 1, owned);

    // Task 2 waits
    let m2 = m.clone();
    m2.begin_lock(&mut graph, 2);

    assert!(graph.has_edge(&Node::Task(2), &Node::Lock("Lw".into())));
    assert!(graph.has_edge(&Node::Lock("Lw".into()), &Node::Task(1)));
    assert!(graph.detect_cycle().is_none());

    g1.release(&mut graph);
    drop(g1);
    let owned = m2.inner.clone().try_lock_owned().unwrap();
    let g2 = m2.finish_lock(&mut graph, 2, owned);
    assert_eq!(graph.outgoing(&Node::Lock("Lw".into())), vec![Node::Task(2)]);
    assert_eq!(g2.owner(), 2);
}

#[test]
fn test_try_lock_nowait() {
    let mut graph = WaitForGraph::new();
    let m = MonitoredMutex::new(TokioMutex::new(10usize), "Lt".to_string());

    // First: acquire lock fully
    m.begin_lock(&mut graph, 1);
    let owned = m.inner.clone().try_lock_owned().unwrap();
    let g1 = m.finish_lock(&mut graph, 1, owned);

    // try-lock should fail (and should not modify graph)
    assert!(m.try_lock_nowait(&mut graph, 2).is_none());

    // check the graph: lock is owned by Task 1
    assert!(graph.has_edge(&Node::Lock("Lt".into()), &Node::Task(1)));
    assert_eq!(graph.outgoing_count(&Node::Task(2)), 0); // no fake edges

    g1.release(&mut graph);
    drop(g1);
    let g2 = m.try_lock_nowait(&mut graph, 2).unwrap();
    assert_eq!(*g2.inner, 10);
    assert_eq!(graph.outgoing(&Node::Lock("Lt".into())), vec![Node::Task(2)]);
}

#[test]
fn test_guard_owner_and_name() {
    let mut registry = TaskRegistry::new();
    let mut graph = WaitForGraph::new();
    let m = mutex("my_lock");

    let mut task =
        spawn_monitored(&mut registry, "inspect_guard".to_string(), "t.rs", 67, 14, (), 0);
    let current = task.begin_poll(&mut registry, 0);
    m.begin_lock(&mut graph, current);
    let owned = m.inner.clone().try_lock_owned().unwrap();
    let g = m.finish_lock(&mut graph, current, owned);

    assert_eq!(g.name(), "my_lock");
    assert!(
        g.owner() != 0,
        "owner should be nonzero for a spawned monitored task"
    );
    assert_eq!(g.owner(), current);
}

#[test]
fn test_mutex_mutation_and_exclusion() {
    let mut graph = WaitForGraph::new();
    let m = mutex("m1");

    m.begin_lock(&mut graph, 1);
    let owned = m.inner.clone().try_lock_owned().unwrap();
    let mut a = m.finish_lock(&mut graph, 1, owned);
    *a.inner = 1;
    assert_eq!(*a.inner, 1);

    m.begin_lock(&mut graph, 2);
    assert!(m.inner.clone().try_lock_owned().is_err());
    a.release(&mut graph);
    drop(a);
    let owned = m.inner.clone().try_lock_owned().unwrap();
    let b = m.finish_lock(&mut graph, 2, owned);
    assert_eq!(*b.inner, 1, "B should have observed A's update (mutual exclusion ensured)");
}

#[test]
fn detect_deadlock_two_mutexes() {
    let mut registry = TaskRegistry::new();
    let mut graph = WaitForGraph::new();
    let m1 = mutex("m1");
    let m2 = mutex("m2");

    let mut a = spawn_monitored(&mut registry, "A".to_string(), "t.rs", 105, 18, (), 0);
    let mut b = spawn_monitored(&mut registry, "B".to_string(), "t.rs", 115, 18, (), 0);

    // task A: lock m1; task B: lock m2
    let current = a.begin_poll(&mut registry, 1);
    m1.begin_lock(&mut graph, current);
    let owned = m1.inner.clone().try_lock_owned().unwrap();
    let g1 = m1.finish_lock(&mut graph, current, owned);
    let current = b.begin_poll(&mut registry, 2);
    m2.begin_lock(&mut graph, current);
    let owned = m2.inner.clone().try_lock_owned().unwrap();
    let _g2 = m2.finish_lock(&mut graph, current, owned);
    assert!(deadlock_report(&graph, &registry).is_none());

    // each waits for the other's
    let current = a.begin_poll(&mut registry, 3);
    m2.begin_lock(&mut graph, current);
    assert!(deadlock_report(&graph, &registry).is_none());
    let current = b.begin_poll(&mut registry, 4);
    m1.begin_lock(&mut graph, current);

    let (tasks, cycle) = deadlock_report(&graph, &registry).expect("deadlock should be detected");
    assert_eq!(cycle.len(), 4);
    let mut names: Vec<String> = tasks.iter().map(|t| t.name.clone()).collect();
    names.sort();
    assert_eq!(names, vec!["A".to_string(), "B".to_string()]);
    assert!(tasks.iter().all(|t| t.polls == 2));

    // releasing one of the locks ends the deadlock
    g1.release(&mut graph);
    assert!(deadlock_report(&graph, &registry).is_none());
}

#[test]
fn test_macro_and_monitored_mutex_integration() {
    let mut registry = TaskRegistry::new();
    let mut graph = WaitForGraph::new();
    let m1 = mutex("m1");
    let m2 = mutex("m2");
    let rewriter = SpawnRewriter {
        aliases: collect_rewrite_aliases(&[Stmt::Other, Stmt::Other, Stmt::Other]),
    };
    let path = vec!["tokio".to_string(), "spawn".to_string()];
    let call = rewriter.rewrite_call(&path, 1).unwrap();
    assert_eq!(call.target, SpawnTarget::Task);
    // the calls in the bodies of the tasks are no spawn calls
    for other in ["sleep", "lock"] {
        assert!(rewriter.rewrite_call(&vec![other.to_string()], 1).is_none());
    }
    let label = call.label;
    let mut a = spawn_monitored(&mut registry, label.clone(), "t.rs", 133, 15, (), 0);
    let mut b = spawn_monitored(&mut registry, label, "t.rs", 134, 15, (), 0);

    let mut guards = Vec::new();
    for (task, first) in [(&mut a, &m1), (&mut b, &m2)] {
        let current = task.begin_poll(&mut registry, 0);
        first.begin_lock(&mut graph, current);
        let owned = first.inner.clone().try_lock_owned().unwrap();
        guards.push(first.finish_lock(&mut graph, current, owned));
    }
    for (task, second) in [(&mut a, &m2), (&mut b, &m1)] {
        assert!(deadlock_report(&graph, &registry).is_none());
        let current = task.begin_poll(&mut registry, 20);
        second.begin_lock(&mut graph, current);
    }

    let (tasks, cycle) = deadlock_report(&graph, &registry).expect("Deadlock not detected in time");
    assert_eq!(tasks.len(), 2);
    assert!(tasks.iter().all(|t| t.name == "tokio::spawn"));
    assert!(cycle.contains(&Node::Lock("m1".to_string())));
    assert!(cycle.contains(&Node::Lock("m2".to_string())));

    graph.clear_edges_from(&Node::Lock("m1".to_string()));
    graph.clear_edges_from(&Node::Lock("m2".to_string()));
    assert!(deadlock_report(&graph, &registry).is_none());
}

#[test]
fn try_lock_gives_a_guard_where_the_mutex_is_available() {
    let mut graph = WaitForGraph::new();
    let m = mutex("L");
    let held = m.try_lock(&mut graph, 3).unwrap();
    assert_eq!((held.name(), held.owner()), ("L", 3));
    assert_eq!(graph.outgoing(&Node::Lock("L".into())), vec![Node::Task(3)]);
    assert_eq!(graph.outgoing_count(&Node::Task(3)), 0);

    // not available: no guard, and the graph stays as it is
    assert!(m.try_lock(&mut graph, 4).is_none());
    assert_eq!(graph.outgoing(&Node::Lock("L".into())), vec![Node::Task(3)]);
    assert_eq!(graph.nodes().len(), 2);

    held.release(&mut graph);
    drop(held);
    assert!(graph.nodes().is_empty());
    assert_eq!(m.try_lock(&mut graph, 4).unwrap().owner(), 4);
}

#[test]
fn what_was_tried_is_adopted() {
    let mut graph = WaitForGraph::new();
    let m = mutex("L");
    assert!(m.adopt(&mut graph, 5, None).is_none());
    assert!(graph.nodes().is_empty());
    let owned = m.inner.clone().try_lock_owned().unwrap();
    let g = m.adopt(&mut graph, 5, Some(owned)).unwrap();
    assert_eq!((g.name(), g.owner()), ("L", 5));
    assert!(graph.has_edge(&Node::Lock("L".into()), &Node::Task(5)));
    assert_eq!(graph.outgoing_count(&Node::Task(5)), 0);
}

#[test]
fn a_released_lock_forgets_its_waiters() {
    let mut graph = WaitForGraph::new();
    let lock = mutex("l");
    let other = mutex("m");
    let held = lock.try_lock_nowait(&mut graph, 1).unwrap();
    let _kept = other.try_lock_nowait(&mut graph, 3).unwrap();
    lock.begin_lock(&mut graph, 2);
    lock.begin_lock(&mut graph, 3);
    held.release(&mut graph);
    drop(held);
    assert_eq!(graph.outgoing_count(&Node::Task(2)), 0);
    assert_eq!(graph.outgoing_count(&Node::Task(3)), 0);
    // task 2 gets the lock and waits for task 3, whose wait is not shown any more
    let owned = lock.inner.clone().try_lock_owned().unwrap();
    let _second = lock.finish_lock(&mut graph, 2, owned);
    other.begin_lock(&mut graph, 2);
    assert!(graph.detect_cycle().is_none());
    // once it waits anew, the ring is found
    lock.begin_lock(&mut graph, 3);
    assert_eq!(graph.detect_cycle().map(|cycle| cycle.len()), Some(4));
}

#[test]
fn an_abandoned_wait_is_shown_until_the_lock_is_released() {
    let mut graph = WaitForGraph::new();
    let a = mutex("a");
    let b = mutex("b");
    let held_a = a.try_lock(&mut graph, 1).unwrap();
    let held_b = b.try_lock(&mut graph, 2).unwrap();
    // task 1 starts to wait for b and gives up
    b.begin_lock(&mut graph, 1);
    assert!(graph.detect_cycle().is_none());
    a.begin_lock(&mut graph, 2);
    assert_eq!(graph.detect_cycle().map(|cycle| cycle.len()), Some(4));
    held_b.release(&mut graph);
    assert!(graph.detect_cycle().is_none());
    assert_eq!(graph.outgoing_count(&Node::Task(1)), 0);
    assert_eq!(held_a.owner(), 1);
}

#[test]
fn acquiring_a_lock_forgets_the_other_waits_of_the_task() {
    let mut graph = WaitForGraph::new();
    let a = mutex("a");
    let b = mutex("b");
    a.begin_lock(&mut graph, 1);
    b.begin_lock(&mut graph, 1);
    assert_eq!(graph.outgoing_count(&Node::Task(1)), 2);
    let owned = a.inner.clone().try_lock_owned().unwrap();
    let _held = a.finish_lock(&mut graph, 1, owned);
    assert_eq!(graph.outgoing_count(&Node::Task(1)), 0);
}

#[test]
fn locking_and_releasing_leaves_the_rest_of_the_graph() {
    let mut graph = WaitForGraph::new();
    graph.add_edge(Node::Task(7), Node::Lock("other".into()));
    let m = mutex("L");
    m.begin_lock(&mut graph, 1);
    let owned = m.inner.clone().try_lock_owned().unwrap();
    m.finish_lock(&mut graph, 1, owned).release(&mut graph);
    assert_eq!(graph.nodes(), vec![Node::Task(7), Node::Lock("other".into())]);
}

#[test]
fn a_ring_of_three_is_a_cycle() {
    let mut graph = WaitForGraph::new();
    let locks = [mutex("a"), mutex("b"), mutex("c")];
    let mut guards = Vec::new();
    for (i, lock) in locks.iter().enumerate() {
        let owned = lock.inner.clone().try_lock_owned().unwrap();
        guards.push(lock.finish_lock(&mut graph, i as u64 + 1, owned));
    }
    for i in 0..3 {
        assert!(graph.detect_cycle().is_none());
        locks[(i + 1) % 3].begin_lock(&mut graph, i as u64 + 1);
    }
    assert_eq!(graph.detect_cycle().map(|cycle| cycle.len()), Some(6));
}
