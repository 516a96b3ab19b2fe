//! What holds of the wait-for graph as a whole.

use crate::model::{GraphView, NodeView};
use vstd::prelude::*;

verus! {

/// Adding an edge adds that edge and changes no other.
pub proof fn law_add_edge(graph: GraphView, from: NodeView, to: NodeView)
    ensures
        forall|a: NodeView, b: NodeView| #[trigger]
            graph.add_edge(from, to).has_edge(a, b) <==> graph.has_edge(a, b) || (a == from && b
                == to),
{
}

/// Clearing the edges from a node removes those edges and no other.
pub proof fn law_clear_edges_from(graph: GraphView, node: NodeView)
    ensures
        forall|a: NodeView, b: NodeView| #[trigger]
            graph.clear_edges_from(node).has_edge(a, b) <==> graph.has_edge(a, b) && a != node,
{
}

/// Clearing the edges to a node removes those edges and no other.
pub proof fn law_clear_edges_to(graph: GraphView, node: NodeView)
    ensures
        forall|a: NodeView, b: NodeView| #[trigger]
            graph.clear_edges_to(node).has_edge(a, b) <==> graph.has_edge(a, b) && b != node,
{
}

/// The order in which edges are added does not matter, nor that one is added twice.
pub proof fn law_edges_in_any_order(
    graph: GraphView,
    a: NodeView,
    b: NodeView,
    c: NodeView,
    d: NodeView,
)
    ensures
        graph.add_edge(a, b).add_edge(c, d) == graph.add_edge(c, d).add_edge(a, b),
        graph.add_edge(a, b).add_edge(a, b) == graph.add_edge(a, b),
{
    let one = graph.add_edge(a, b).add_edge(c, d);
    let two = graph.add_edge(c, d).add_edge(a, b);
    assert forall|node: NodeView| #[trigger] one.edges.contains_key(node) implies one.edges[node]
        == two.edges[node] by {
        assert(one.edges[node] =~= two.edges[node]);
    }
    assert(one.edges =~= two.edges);
    let once = graph.add_edge(a, b);
    let twice = once.add_edge(a, b);
    assert(twice.edges[a] =~= once.edges[a]);
    assert(twice.edges =~= once.edges);
}

/// An edge has both its ends in the graph; a node that no edge touches waits on nothing.
pub proof fn law_edges_and_nodes(graph: GraphView, from: NodeView, to: NodeView)
    ensures
        graph.has_edge(from, to) ==> graph.has_node(from) && graph.has_node(to),
        graph.touches(from) ==> graph.has_node(from),
        !graph.touches(from) ==> graph.targets(from) == Set::<NodeView>::empty(),
        graph.has_edge(from, to) <==> graph.targets(from).contains(to),
{
    if !graph.touches(from) {
        assert forall|other: NodeView| !graph.targets(from).contains(other) by {
            assert(!graph.has_edge(from, other));
        }
        assert(graph.targets(from) =~= Set::empty());
    }
}

/// Removing a task takes it out of the graph, with all edges from and to it and no other.
pub proof fn law_remove_task(graph: GraphView, id: u64)
    ensures
        !graph.remove_task(id).touches(NodeView::Task(id)),
        !graph.remove_task(id).has_node(NodeView::Task(id)),
        forall|a: NodeView, b: NodeView| #[trigger]
            graph.remove_task(id).has_edge(a, b) <==> graph.has_edge(a, b) && a != NodeView::Task(
                id,
            ) && b != NodeView::Task(id),
{
    law_clear_edges_from(graph, NodeView::Task(id));
    law_clear_edges_to(graph.clear_edges_from(NodeView::Task(id)), NodeView::Task(id));
}

/// The empty graph has no node, no edge and no cycle.
pub proof fn law_empty(node: NodeView)
    ensures
        !GraphView::empty().has_node(node),
        !GraphView::empty().touches(node),
        !GraphView::empty().has_cycle(),
{
    assert forall|walk: Seq<NodeView>| !GraphView::empty().is_closed_walk(walk) by {
        if walk.len() > 0 {
            assert(!GraphView::empty().has_edge(walk[0], crate::model::after(walk, 0)));
        }
    }
}

/// A cycle stays a cycle in a graph that has all the edges.
pub proof fn law_more_edges_keep_cycles(fewer: GraphView, more: GraphView)
    requires
        forall|a: NodeView, b: NodeView| #[trigger] fewer.has_edge(a, b) ==> more.has_edge(a, b),
        fewer.has_cycle(),
    ensures
        more.has_cycle(),
{
    let walk = choose|walk: Seq<NodeView>| fewer.is_closed_walk(walk);
    assert(more.is_closed_walk(walk)) by {
        assert forall|i: int| 0 <= i < walk.len() implies more.has_edge(
            walk[i],
            #[trigger] crate::model::after(walk, i),
        ) by {
            assert(fewer.has_edge(walk[i], crate::model::after(walk, i)));
        }
    }
}

/// Taking edges out makes no cycle: clearing edges of a graph without cycles leaves one.
pub proof fn law_clearing_makes_no_cycle(graph: GraphView, node: NodeView, id: u64)
    requires
        !graph.has_cycle(),
    ensures
        !graph.clear_edges_from(node).has_cycle(),
        !graph.clear_edges_to(node).has_cycle(),
        !graph.remove_task(id).has_cycle(),
{
    law_clear_edges_from(graph, node);
    law_clear_edges_to(graph, node);
    law_remove_task(graph, id);
    if graph.clear_edges_from(node).has_cycle() {
        law_more_edges_keep_cycles(graph.clear_edges_from(node), graph);
    }
    if graph.clear_edges_to(node).has_cycle() {
        law_more_edges_keep_cycles(graph.clear_edges_to(node), graph);
    }
    if graph.remove_task(id).has_cycle() {
        law_more_edges_keep_cycles(graph.remove_task(id), graph);
    }
}

/// Every node of a closed walk is a source of the graph that has an edge.
pub proof fn law_cycle_nodes_are_sources(graph: GraphView, walk: Seq<NodeView>, i: int)
    requires
        graph.is_closed_walk(walk),
        0 <= i < walk.len(),
    ensures
        graph.edges.contains_key(walk[i]),
        graph.touches(walk[i]),
{
    assert(graph.has_edge(walk[i], crate::model::after(walk, i)));
}

/// A graph in which some walk leads back to its start has a cycle that meets no node
/// twice.
pub proof fn law_cycle_without_repetition(graph: GraphView)
    ensures
        graph.has_cycle() <==> exists|cycle: Seq<NodeView>| graph.is_cycle(cycle),
{
    if graph.has_cycle() {
        let walk = choose|walk: Seq<NodeView>| graph.is_closed_walk(walk);
        lemma_shorten(graph, walk);
    }
    if exists|cycle: Seq<NodeView>| graph.is_cycle(cycle) {
        let cycle = choose|cycle: Seq<NodeView>| graph.is_cycle(cycle);
        assert(graph.is_closed_walk(cycle));
    }
}

/// Between two visits of one node a closed walk is a closed walk.
proof fn lemma_part_closed(graph: GraphView, walk: Seq<NodeView>, lo: int, hi: int)
    requires
        graph.is_closed_walk(walk),
        0 <= lo < hi < walk.len(),
        walk[lo] == walk[hi],
    ensures
        graph.is_closed_walk(walk.subrange(lo, hi)),
{
    let part = walk.subrange(lo, hi);
    assert forall|k: int| 0 <= k < part.len() implies graph.has_edge(
        part[k],
        #[trigger] crate::model::after(part, k),
    ) by {
        let at = lo + k;
        assert(part[k] == walk[at]);
        assert(graph.has_edge(walk[at], crate::model::after(walk, at)));
        if k + 1 < part.len() {
            assert(part[k + 1] == walk[at + 1]);
        } else {
            assert(part[0] == walk[lo]);
        }
    }
}

/// A closed walk holds a cycle.
proof fn lemma_shorten(graph: GraphView, walk: Seq<NodeView>)
    requires
        graph.is_closed_walk(walk),
    ensures
        exists|cycle: Seq<NodeView>| graph.is_cycle(cycle),
    decreases walk.len(),
{
    if walk.no_duplicates() {
        assert(graph.is_cycle(walk));
    } else {
        let (i, j) = choose|i: int, j: int|
            0 <= i < walk.len() && 0 <= j < walk.len() && i != j && walk[i] == walk[j];
        let lo = if i < j {
            i
        } else {
            j
        };
        let hi = if i < j {
            j
        } else {
            i
        };
        lemma_part_closed(graph, walk, lo, hi);
        lemma_shorten(graph, walk.subrange(lo, hi));
    }
}

/// Two nodes are one in the graph exactly where both are the same task, or locks whose names
/// are the same text.
pub proof fn law_nodes(a: crate::graph::Node, b: crate::graph::Node)
    ensures
        a@ == b@ <==> match (a, b) {
            (crate::graph::Node::Task(i), crate::graph::Node::Task(j)) => i == j,
            (crate::graph::Node::Lock(m), crate::graph::Node::Lock(n)) => m@ == n@,
            _ => false,
        },
{
}

/// The views of nodes are theirs one by one.
pub proof fn law_views(nodes: Seq<crate::graph::Node>)
    ensures
        crate::graph::views(nodes).len() == nodes.len(),
        forall|i: int|
            0 <= i < nodes.len() ==> #[trigger] crate::graph::views(nodes)[i] == nodes[i]@,
{
}

/// What the graph is asked for is what it records: an edge, the nodes waited on, whether an
/// edge touches a node, and whether it is a node of the graph.
pub proof fn law_what_is_recorded(graph: GraphView, a: NodeView, b: NodeView)
    ensures
        graph.has_edge(a, b) <==> graph.edges.contains_key(a) && graph.edges[a].contains(b),
        graph.targets(a).contains(b) <==> graph.edges.contains_key(a) && graph.edges[a].contains(
            b,
        ),
        graph.touches(a) <==> (graph.edges.contains_key(a) && exists|to: NodeView| #[trigger]
            graph.edges[a].contains(to)) || (exists|from: NodeView|
            graph.edges.contains_key(from) && #[trigger] graph.edges[from].contains(a)),
        graph.has_node(a) <==> graph.edges.contains_key(a) || (exists|from: NodeView|
            graph.edges.contains_key(from) && #[trigger] graph.edges[from].contains(a)),
{
    if exists|to: NodeView| graph.has_edge(a, to) {
        let to = choose|to: NodeView| graph.has_edge(a, to);
        assert(graph.edges[a].contains(to));
    }
    if exists|from: NodeView| graph.has_edge(from, a) {
        let from = choose|from: NodeView| graph.has_edge(from, a);
        assert(graph.edges[from].contains(a));
    }
    if graph.edges.contains_key(a) && exists|to: NodeView| #[trigger] graph.edges[a].contains(to) {
        let to = choose|to: NodeView| #[trigger] graph.edges[a].contains(to);
        assert(graph.has_edge(a, to));
    }
    if exists|from: NodeView|
        graph.edges.contains_key(from) && #[trigger] graph.edges[from].contains(a) {
        let from = choose|from: NodeView|
            graph.edges.contains_key(from) && #[trigger] graph.edges[from].contains(a);
        assert(graph.has_edge(from, a));
    }
}

/// Which nodes are recorded as sources: adding an edge records its start, clearing the edges
/// from a node takes that node out, clearing the edges to a node changes none.
pub proof fn law_sources(graph: GraphView, from: NodeView, to: NodeView, node: NodeView)
    ensures
        graph.add_edge(from, to).edges.contains_key(node) <==> graph.edges.contains_key(node)
            || node == from,
        graph.clear_edges_from(from).edges.contains_key(node) <==> graph.edges.contains_key(node)
            && node != from,
        graph.clear_edges_to(to).edges.contains_key(node) <==> graph.edges.contains_key(node),
{
}

/// `from` is recorded as waiting on `to`.
pub open spec fn recorded(graph: GraphView, from: NodeView, to: NodeView) -> bool {
    graph.edges.contains_key(from) && graph.edges[from].contains(to)
}

/// Every node of `walk` but the last is recorded as waiting on the next.
pub open spec fn goes_along_edges(graph: GraphView, walk: Seq<NodeView>) -> bool {
    forall|i: int, j: int|
        0 <= i < j < walk.len() && j == i + 1 ==> #[trigger] recorded(graph, walk[i], walk[j])
}

/// A closed walk goes along an edge at every step, and by one more from its last node to its
/// first; a cycle meets no node twice.
pub proof fn law_closed_walks(graph: GraphView, walk: Seq<NodeView>)
    ensures
        graph.is_closed_walk(walk) <==> walk.len() > 0 && goes_along_edges(graph, walk)
            && recorded(graph, walk[walk.len() - 1], walk[0]),
        graph.is_cycle(walk) <==> graph.is_closed_walk(walk) && forall|i: int, j: int|
            0 <= i < j < walk.len() ==> #[trigger] walk[i] != #[trigger] walk[j],
        graph.is_closed_walk(walk) ==> graph.has_cycle(),
{
    let last = walk.len() - 1;
    if graph.is_closed_walk(walk) {
        assert(graph.has_edge(walk[last], crate::model::after(walk, last)));
        assert forall|i: int, j: int| 0 <= i < j < walk.len() && j == i + 1 implies #[trigger]
            recorded(graph, walk[i], walk[j]) by {
            assert(graph.has_edge(walk[i], crate::model::after(walk, i)));
        }
    }
    if walk.len() > 0 && goes_along_edges(graph, walk) && recorded(graph, walk[last], walk[0]) {
        assert forall|i: int| 0 <= i < walk.len() implies graph.has_edge(
            walk[i],
            #[trigger] crate::model::after(walk, i),
        ) by {
            if i + 1 < walk.len() {
                assert(recorded(graph, walk[i], walk[i + 1]));
            }
        }
    }
}

/// The graph has a cycle exactly where some node can get back to itself along edges.
pub proof fn law_has_cycle(graph: GraphView)
    ensures
        graph.has_cycle() <==> exists|walk: Seq<NodeView>|
            walk.len() > 0 && #[trigger] goes_along_edges(graph, walk)
                && recorded(graph, walk[walk.len() - 1], walk[0]),
{
    if graph.has_cycle() {
        let walk = choose|walk: Seq<NodeView>| graph.is_closed_walk(walk);
        law_closed_walks(graph, walk);
        assert(goes_along_edges(graph, walk));
    }
    if exists|walk: Seq<NodeView>|
        walk.len() > 0 && #[trigger] goes_along_edges(graph, walk) && recorded(
            graph,
            walk[walk.len() - 1],
            walk[0],
        ) {
        let walk = choose|walk: Seq<NodeView>|
            walk.len() > 0 && #[trigger] goes_along_edges(graph, walk) && recorded(
                graph,
                walk[walk.len() - 1],
                walk[0],
            );
        law_closed_walks(graph, walk);
    }
}

} // verus!
