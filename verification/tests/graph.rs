//! The wait-for graph.

use detector::graph::{Node, WaitForGraph};
use std::collections::HashSet;

fn t(id: u64) -> Node {
    Node::Task(id)
}
fn l(s: &str) -> Node {
    Node::Lock(s.into())
}

#[test]
fn test_add_and_has_edge() {
    let mut g = WaitForGraph::new();
    let a = Node::Task(1);
    let b = Node::Lock("L1".into());

    assert!(!g.has_edge(&a, &b));

    g.add_edge(a.clone(), b.clone());

    assert!(g.has_edge(&a, &b));
    assert!(!g.has_edge(&b, &a));
}

#[test]
fn test_clear_edges_from() {
    let mut g = WaitForGraph::new();
    let a = Node::Task(1);
    let b = Node::Lock("L1".into());
    let c = Node::Lock("L2".into());

    g.add_edge(a.clone(), b.clone());
    g.add_edge(a.clone(), c.clone());

    assert!(g.has_edge(&a, &b));
    assert!(g.has_edge(&a, &c));

    g.clear_edges_from(&a);

    assert!(!g.has_edge(&a, &b));
    assert!(!g.has_edge(&a, &c));
}

#[test]
fn test_clear_edges_to() {
    let mut g = WaitForGraph::new();
    let a = Node::Task(1);
    let b = Node::Task(2);

    let lock = Node::Lock("L".into());

    g.add_edge(a.clone(), lock.clone());
    g.add_edge(b.clone(), lock.clone());
    assert!(g.has_edge(&a, &lock));
    assert!(g.has_edge(&b, &lock));

    g.clear_edges_to(&lock);

    assert!(!g.has_edge(&a, &lock));
    assert!(!g.has_edge(&b, &lock));
}

#[test]
fn test_remove_task() {
    let mut g = WaitForGraph::new();
    let t1 = Node::Task(1);
    let t2 = Node::Task(2);

    g.add_edge(t1.clone(), t2.clone());
    g.add_edge(t2.clone(), t1.clone());

    g.remove_task(1);

    // all edges from and to t1 must be gone
    assert!(!g.has_edge(&t1, &t2));
    assert!(!g.has_edge(&t2, &t1));

    // but task 2 may still exist as a key (empty or missing is fine)
    assert!(!g.has_any_edges_with(&t1));
}

#[test]
fn test_has_any_edges_with() {
    let mut g = WaitForGraph::new();
    let t1 = Node::Task(1);
    let t2 = Node::Task(2);
    let l = Node::Lock("L".into());

    assert!(!g.has_any_edges_with(&t1));

    g.add_edge(t1.clone(), t2.clone());
    assert!(g.has_any_edges_with(&t1));
    assert!(g.has_any_edges_with(&t2));

    g.add_edge(l.clone(), t1.clone());
    assert!(g.has_any_edges_with(&l));
}

#[test]
fn test_outgoing_and_count() {
    let mut g = WaitForGraph::new();
    let a = Node::Task(1);
    let b = Node::Lock("B".into());
    let c = Node::Lock("C".into());

    assert_eq!(g.outgoing_count(&a), 0);
    assert_eq!(g.outgoing(&a).len(), 0);

    g.add_edge(a.clone(), b.clone());
    g.add_edge(a.clone(), c.clone());

    let out = g.outgoing(&a);
    assert_eq!(out.len(), 2);

    // order is not guaranteed; convert to set
    let out_set: HashSet<_> = out.into_iter().collect();
    assert!(out_set.contains(&b));
    assert!(out_set.contains(&c));
}

#[test]
fn test_clear_graph() {
    let mut g = WaitForGraph::new();

    let a = Node::Task(1);
    let b = Node::Task(2);

    g.add_edge(a.clone(), b.clone());
    g.add_edge(b.clone(), a.clone());

    assert!(g.has_any_edges_with(&a));
    assert!(g.has_any_edges_with(&b));

    g.clear();

    assert!(!g.has_any_edges_with(&a));
    assert!(!g.has_any_edges_with(&b));
    assert!(g.nodes().is_empty());
}

#[test]
fn test_detect_no_cycle() {
    let mut g = WaitForGraph::new();
    g.add_edge(t(1), t(2));
    g.add_edge(t(2), t(3));

    assert!(g.detect_cycle().is_none());
}

#[test]
fn test_cycle_detection_simple_cycle() {
    let mut g = WaitForGraph::new();
    let a = Node::Task(1);
    let b = Node::Task(2);

    g.add_edge(a.clone(), b.clone());
    g.add_edge(b.clone(), a.clone());

    let cycle = g.detect_cycle().expect("cycle expected");
    // possible result: [Task(1), Task(2)]
    assert!(cycle.contains(&a));
    assert!(cycle.contains(&b));
}

#[test]
fn test_detect_three_node_cycle() {
    let mut g = WaitForGraph::new();
    g.add_edge(t(1), t(2));
    g.add_edge(t(2), t(3));
    g.add_edge(t(3), t(1)); // 1 -> 2 -> 3 -> 1

    let cycle = g.detect_cycle().expect("expected a cycle");

    // Expect a 3-node cycle containing the three tasks (order may be rotated).
    assert_eq!(cycle.len(), 3);

    let expected: std::collections::HashSet<_> =
        std::iter::FromIterator::from_iter(vec![t(1), t(2), t(3)]);
    let found: std::collections::HashSet<_> = std::iter::FromIterator::from_iter(cycle.clone());
    assert_eq!(
        expected, found,
        "cycle must contain the three expected nodes"
    );

    // Also verify that each consecutive pair in the returned cycle is an actual directed edge
    // in the graph (including wrap-around).
    for i in 0..cycle.len() {
        let a = &cycle[i];
        let b = &cycle[(i + 1) % cycle.len()];
        let has_edge = g.has_edge(a, b);
        assert!(has_edge, "expected edge {:?} -> {:?} in cycle", a, b);
    }
}

#[test]
fn test_detect_cycle_with_locks() {
    let mut g = WaitForGraph::new();

    // Task 1 waits for Lock L1 → L1 is held by Task 2 → Task 2 waits for Task 1
    g.add_edge(t(1), l("L1"));
    g.add_edge(l("L1"), t(2));
    g.add_edge(t(2), t(1));

    let cycle = g.detect_cycle().expect("expected cycle");
    assert_eq!(cycle.len(), 3);

    // Expected members regardless of order
    let expected: std::collections::HashSet<_> =
        std::iter::FromIterator::from_iter(vec![t(1), l("L1"), t(2)]);
    let found: std::collections::HashSet<_> = std::iter::FromIterator::from_iter(cycle.clone());
    assert_eq!(expected, found, "cycle must contain the expected nodes");

    // Ensure the returned cycle is valid: every adjacent pair must be an edge
    for i in 0..cycle.len() {
        let a = &cycle[i];
        let b = &cycle[(i + 1) % cycle.len()];
        let has_edge = g.has_edge(a, b);
        assert!(has_edge, "cycle edge missing: expected {:?} → {:?}", a, b);
    }
}

#[test]
fn test_detects_only_one_cycle() {
    let mut g = WaitForGraph::new();

    // Two cycles exist: (1→2→1) and (3→4→3)
    g.add_edge(t(1), t(2));
    g.add_edge(t(2), t(1));

    g.add_edge(t(3), t(4));
    g.add_edge(t(4), t(3));

    let cycle = g.detect_cycle().unwrap();

    // must be a 2-node cycle
    assert_eq!(cycle.len(), 2);

    // Accept either {1,2} or {3,4} (order/rotation may vary)
    let nodes: HashSet<_> = cycle.iter().cloned().collect();
    let ab: HashSet<_> = [t(1), t(2)].into_iter().collect();
    let cd: HashSet<_> = [t(3), t(4)].into_iter().collect();

    assert!(
        nodes == ab || nodes == cd,
        "unexpected cycle nodes: {nodes:?}, full cycle: {cycle:?}"
    );

    // Also verify the returned order corresponds to actual directed edges
    for i in 0..cycle.len() {
        let a = &cycle[i];
        let b = &cycle[(i + 1) % cycle.len()];
        assert!(
            g.has_edge(a, b),
            "expected edge {:?} -> {:?} in returned cycle",
            a,
            b
        );
    }
}

#[test]
fn nodes_lists_sources_first() {
    let mut g = WaitForGraph::new();
    assert!(g.nodes().is_empty());
    g.add_edge(t(1), l("A"));
    g.add_edge(t(2), l("B"));
    g.add_edge(l("A"), t(2));
    let nodes = g.nodes();
    assert_eq!(nodes.len(), 4);
    let sources: HashSet<Node> = nodes[..3].iter().cloned().collect();
    let expected: HashSet<Node> = vec![t(1), t(2), l("A")].into_iter().collect();
    assert_eq!(sources, expected);
    assert_eq!(nodes[3], l("B"));
}

#[test]
fn cleared_targets_leave_their_sources() {
    let mut g = WaitForGraph::default();
    g.add_edge(t(1), l("A"));
    g.clear_edges_to(&l("A"));
    assert_eq!(g.nodes(), vec![t(1)]);
    assert!(!g.has_any_edges_with(&t(1)));
    assert_eq!(g.outgoing_count(&t(1)), 0);
    g.clear_edges_from(&t(1));
    assert!(g.nodes().is_empty());
}

#[test]
fn an_edge_is_recorded_once() {
    let mut g = WaitForGraph::new();
    g.add_edge(t(1), l("A"));
    g.add_edge(t(1), l("A"));
    assert_eq!(g.outgoing_count(&t(1)), 1);
    assert_eq!(g.outgoing(&t(1)), vec![l("A")]);
    assert_eq!(g.nodes(), vec![t(1), l("A")]);
}

#[test]
fn clearing_from_an_unknown_node_changes_nothing() {
    let mut g = WaitForGraph::new();
    g.add_edge(t(1), t(2));
    g.clear_edges_from(&t(7));
    g.clear_edges_to(&t(7));
    g.remove_task(7);
    assert!(g.has_edge(&t(1), &t(2)));
    assert_eq!(g.nodes(), vec![t(1), t(2)]);
}

#[test]
fn a_task_and_a_lock_are_different_nodes() {
    let mut g = WaitForGraph::new();
    g.add_edge(t(1), l("1"));
    assert!(!g.has_edge(&l("1"), &l("1")));
    assert!(!g.has_edge(&t(1), &t(1)));
    assert!(t(1).same(&t(1)) && l("1").same(&l("1")));
    assert!(!t(1).same(&l("1")) && !l("1").same(&t(1)) && !l("1").same(&l("2")));
}

#[test]
fn a_node_that_waits_on_itself_is_a_cycle() {
    let mut g = WaitForGraph::new();
    g.add_edge(t(1), t(2));
    g.add_edge(t(2), t(2));
    assert_eq!(g.detect_cycle(), Some(vec![t(2)]));
}

#[test]
fn a_cycle_behind_a_tail_is_found_without_the_tail() {
    let mut g = WaitForGraph::new();
    g.add_edge(t(1), t(2));
    g.add_edge(t(2), t(3));
    g.add_edge(t(3), t(4));
    g.add_edge(t(4), t(2));
    let cycle = g.detect_cycle().expect("a cycle");
    assert_eq!(cycle.len(), 3);
    assert!(!cycle.contains(&t(1)));
    for i in 0..cycle.len() {
        assert!(g.has_edge(&cycle[i], &cycle[(i + 1) % cycle.len()]));
    }
}

#[test]
fn two_ways_to_one_node_are_no_cycle() {
    let mut g = WaitForGraph::new();
    g.add_edge(t(1), t(2));
    g.add_edge(t(1), t(3));
    g.add_edge(t(2), t(4));
    g.add_edge(t(3), t(4));
    g.add_edge(t(4), t(5));
    assert!(g.detect_cycle().is_none());
    g.add_edge(t(5), t(3));
    let cycle = g.detect_cycle().expect("a cycle");
    let found: HashSet<Node> = cycle.iter().cloned().collect();
    let expected: HashSet<Node> = vec![t(3), t(4), t(5)].into_iter().collect();
    assert_eq!(found, expected);
    g.clear_edges_to(&t(4));
    assert!(g.detect_cycle().is_none());
}

#[test]
fn a_long_chain_is_searched() {
    let mut g = WaitForGraph::new();
    for id in 0..200 {
        g.add_edge(t(id), t(id + 1));
    }
    assert!(g.detect_cycle().is_none());
    g.add_edge(t(200), t(0));
    assert_eq!(g.detect_cycle().map(|cycle| cycle.len()), Some(201));
}
