//! The mathematical model of the wait-for graph.

use vstd::prelude::*;

verus! {

/// A node of the graph, with a lock known by the characters of its name.
pub enum NodeView {
    Task(u64),
    Lock(Seq<char>),
}

/// The element after position `i`, going round from the last to the first.
pub open spec fn after<T>(walk: Seq<T>, i: int) -> T {
    if i + 1 < walk.len() {
        walk[i + 1]
    } else {
        walk[0]
    }
}

/// A wait-for graph: each node that is recorded as a source, with the nodes it waits on.
///
/// A source may be recorded with no node to wait on.
#[verifier::ext_equal]
pub struct GraphView {
    pub edges: Map<NodeView, Set<NodeView>>,
}

impl GraphView {
    /// The graph that records nothing.
    pub open spec fn empty() -> GraphView {
        GraphView { edges: Map::empty() }
    }

    /// `from` waits on `to`.
    pub open spec fn has_edge(self, from: NodeView, to: NodeView) -> bool {
        self.edges.contains_key(from) && self.edges[from].contains(to)
    }

    /// What `from` waits on.
    pub open spec fn targets(self, from: NodeView) -> Set<NodeView> {
        if self.edges.contains_key(from) {
            self.edges[from]
        } else {
            Set::empty()
        }
    }

    /// Some edge starts or ends at `node`.
    pub open spec fn touches(self, node: NodeView) -> bool {
        ||| exists|to: NodeView| self.has_edge(node, to)
        ||| exists|from: NodeView| self.has_edge(from, node)
    }

    /// `node` is recorded as a source, or an edge ends at it.
    pub open spec fn has_node(self, node: NodeView) -> bool {
        self.edges.contains_key(node) || exists|from: NodeView| #[trigger] self.has_edge(from, node)
    }

    /// The graph with the edge from `from` to `to` added.
    pub open spec fn add_edge(self, from: NodeView, to: NodeView) -> GraphView {
        GraphView { edges: self.edges.insert(from, self.targets(from).insert(to)) }
    }

    /// The graph without the source `node` and its edges.
    pub open spec fn clear_edges_from(self, node: NodeView) -> GraphView {
        GraphView { edges: self.edges.remove(node) }
    }

    /// The graph without the edges into `node`; every source stays recorded.
    pub open spec fn clear_edges_to(self, node: NodeView) -> GraphView {
        GraphView { edges: self.edges.map_values(|set: Set<NodeView>| set.remove(node)) }
    }

    /// The graph without the edges of a task.
    pub open spec fn remove_task(self, id: u64) -> GraphView {
        self.clear_edges_from(NodeView::Task(id)).clear_edges_to(NodeView::Task(id))
    }

    /// Each node of `walk` waits on the next, and the last on the first.
    pub open spec fn is_closed_walk(self, walk: Seq<NodeView>) -> bool {
        &&& walk.len() > 0
        &&& forall|i: int| 0 <= i < walk.len() ==> self.has_edge(walk[i], #[trigger] after(walk, i))
    }

    /// A closed walk that meets no node twice.
    pub open spec fn is_cycle(self, walk: Seq<NodeView>) -> bool {
        self.is_closed_walk(walk) && walk.no_duplicates()
    }

    /// Some node waits, directly or through others, on itself.
    pub open spec fn has_cycle(self) -> bool {
        exists|walk: Seq<NodeView>| self.is_closed_walk(walk)
    }
}

} // verus!
