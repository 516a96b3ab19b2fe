//! The wait-for graph between tasks and locks.

use crate::model::{GraphView, NodeView};
use vstd::prelude::*;

verus! {

/// Unique task id type.
pub type TaskId = u64;

/// A node of the graph. Locks are identified by their names.
#[derive(Debug, PartialEq, Eq, Hash)]
pub enum Node {
    Task(TaskId),
    Lock(String),
}

impl View for Node {
    type V = NodeView;

    open spec fn view(&self) -> NodeView {
        match self {
            Node::Task(id) => NodeView::Task(*id),
            Node::Lock(name) => NodeView::Lock(name@),
        }
    }
}

impl Clone for Node {
    fn clone(&self) -> (copy: Self)
        ensures
            copy == *self,
    {
        match self {
            Node::Task(id) => Node::Task(*id),
            Node::Lock(name) => Node::Lock(name.clone()),
        }
    }
}

impl Node {
    /// The two nodes are the same task, or locks of the same name.
    pub fn same(&self, other: &Node) -> (same: bool)
        ensures
            same == (self@ == other@),
    {
        match (self, other) {
            (Node::Task(a), Node::Task(b)) => *a == *b,
            (Node::Lock(a), Node::Lock(b)) => *a == *b,
            _ => false,
        }
    }
}

/// The views of a sequence of nodes.
pub open spec fn views(nodes: Seq<Node>) -> Seq<NodeView> {
    nodes.map_values(|node: Node| node@)
}

/// One source of the graph with the nodes it waits on.
#[derive(Debug)]
struct Entry {
    node: Node,
    targets: Vec<Node>,
}

/// A Wait-For graph used to detect cycles.
#[derive(Debug)]
pub struct WaitForGraph {
    /// adjacency list: each source once, with every node that it waits on once
    edges: Vec<Entry>,
}

spec fn keys(entries: Seq<Entry>) -> Seq<NodeView> {
    entries.map_values(|entry: Entry| entry.node@)
}

spec fn well_formed(entries: Seq<Entry>) -> bool {
    &&& keys(entries).no_duplicates()
    &&& forall|i: int|
        0 <= i < entries.len() ==> views((#[trigger] entries[i]).targets@).no_duplicates()
}

spec fn graph_of(entries: Seq<Entry>) -> GraphView {
    GraphView {
        edges: Map::new(
            |node: NodeView| keys(entries).contains(node),
            |node: NodeView|
                views(entries[keys(entries).index_of(node)].targets@).to_set(),
        ),
    }
}

/// What the graph records of the source at position `i`.
proof fn lemma_entry(entries: Seq<Entry>, i: int)
    requires
        keys(entries).no_duplicates(),
        0 <= i < entries.len(),
    ensures
        graph_of(entries).edges.contains_key(entries[i].node@),
        graph_of(entries).edges[entries[i].node@] == views(entries[i].targets@).to_set(),
{
    let ks = keys(entries);
    assert(ks[i] == entries[i].node@);
    assert(ks.contains(ks[i]));
    let j = ks.index_of(ks[i]);
    assert(ks[j] == ks[i]);
}

/// A graph that records what every entry says, and no other source, is the
/// graph of the entries.
proof fn lemma_graph_of(entries: Seq<Entry>, graph: GraphView)
    requires
        keys(entries).no_duplicates(),
        forall|node: NodeView| #[trigger]
            graph.edges.contains_key(node) <==> keys(entries).contains(node),
        forall|i: int|
            0 <= i < entries.len() ==> graph.edges[(#[trigger] entries[i]).node@] == views(
                entries[i].targets@,
            ).to_set(),
    ensures
        graph_of(entries) == graph,
{
    let ours = graph_of(entries).edges;
    assert forall|node: NodeView| #[trigger] ours.contains_key(node) implies ours[node]
        == graph.edges[node] by {
        let i = keys(entries).index_of(node);
        assert(entries[i].node@ == node);
    }
    assert(ours =~= graph.edges);
}

/// The position of `node` in `nodes`.
fn find(nodes: &Vec<Node>, node: &Node) -> (found: Option<usize>)
    ensures
        match found {
            Some(i) => i < nodes@.len() && nodes@[i as int]@ == node@,
            None => !views(nodes@).contains(node@),
        },
{
    let mut i: usize = 0;
    while i < nodes.len()
        invariant
            i <= nodes@.len(),
            forall|k: int| 0 <= k < i ==> (#[trigger] nodes@[k])@ != node@,
        decreases nodes@.len() - i,
    {
        if nodes[i].same(node) {
            return Some(i);
        }
        i = i + 1;
    }
    None
}

/// The position of the source `node` in `entries`.
fn find_entry(entries: &Vec<Entry>, node: &Node) -> (found: Option<usize>)
    ensures
        match found {
            Some(i) => i < entries@.len() && entries@[i as int].node@ == node@,
            None => !keys(entries@).contains(node@),
        },
{
    let mut i: usize = 0;
    while i < entries.len()
        invariant
            i <= entries@.len(),
            forall|k: int| 0 <= k < i ==> (#[trigger] entries@[k]).node@ != node@,
        decreases entries@.len() - i,
    {
        if entries[i].node.same(node) {
            return Some(i);
        }
        i = i + 1;
    }
    None
}

/// A copy of `nodes`.
fn copy_of(nodes: &Vec<Node>) -> (copy: Vec<Node>)
    ensures
        copy@ == nodes@,
{
    let mut copy: Vec<Node> = Vec::new();
    let mut i: usize = 0;
    while i < nodes.len()
        invariant
            i <= nodes@.len(),
            copy@ == nodes@.take(i as int),
        decreases nodes@.len() - i,
    {
        copy.push(nodes[i].clone());
        i = i + 1;
    }
    assert(nodes@.take(nodes@.len() as int) =~= nodes@);
    copy
}

impl View for WaitForGraph {
    type V = GraphView;

    closed spec fn view(&self) -> GraphView {
        graph_of(self.edges@)
    }
}

impl Default for WaitForGraph {
    fn default() -> (graph: Self)
        ensures
            graph@ == GraphView::empty(),
    {
        WaitForGraph::new()
    }
}

impl WaitForGraph {
    #[verifier::type_invariant]
    spec fn inv(self) -> bool {
        well_formed(self.edges@)
    }

    pub fn new() -> (graph: Self)
        ensures
            graph@ == GraphView::empty(),
    {
        let graph = WaitForGraph { edges: Vec::new() };
        assert(graph@.edges =~= GraphView::empty().edges);
        graph
    }

    /// Clear the entire graph.
    pub fn clear(&mut self)
        ensures
            final(self)@ == GraphView::empty(),
    {
        self.edges = Vec::new();
        assert(self@.edges =~= GraphView::empty().edges);
    }

    /// Returns true if there is an edge `from → to`.
    pub fn has_edge(&self, from: &Node, to: &Node) -> (present: bool)
        ensures
            present == self@.has_edge(from@, to@),
    {
        proof {
            use_type_invariant(self);
        }
        match find_entry(&self.edges, from) {
            Some(i) => {
                proof {
                    lemma_entry(self.edges@, i as int);
                }
                match find(&self.edges[i].targets, to) {
                    Some(k) => {
                        assert(views(self.edges@[i as int].targets@)[k as int] == to@);
                        true
                    },
                    None => false,
                }
            },
            None => false,
        }
    }

    /// Add directed edge A → B (A waits on B)
    pub fn add_edge(&mut self, from: Node, to: Node)
        ensures
            final(self)@ == old(self)@.add_edge(from@, to@),
    {
        proof {
            use_type_invariant(&*self);
        }
        let mut entries: Vec<Entry> = Vec::new();
        std::mem::swap(&mut entries, &mut self.edges);
        self.edges = with_edge(entries, from, to);
    }

    /// Returns true if *any* edge touches this node (either incoming or outgoing).
    pub fn has_any_edges_with(&self, n: &Node) -> (touched: bool)
        ensures
            touched == self@.touches(n@),
    {
        proof {
            use_type_invariant(self);
        }
        // outgoing edges
        match find_entry(&self.edges, n) {
            Some(i) => {
                proof {
                    lemma_entry(self.edges@, i as int);
                }
                if self.edges[i].targets.len() > 0 {
                    assert(views(self.edges@[i as int].targets@)[0]
                        == self.edges@[i as int].targets@[0]@);
                    assert(self@.has_edge(n@, self.edges@[i as int].targets@[0]@));
                    return true;
                }
            },
            None => {},
        }
        assert forall|other: NodeView| !#[trigger] self@.has_edge(n@, other) by {
            if self@.has_edge(n@, other) {
                let i = keys(self.edges@).index_of(n@);
                lemma_entry(self.edges@, i);
            }
        }
        // incoming edges
        let mut i: usize = 0;
        while i < self.edges.len()
            invariant
                i <= self.edges@.len(),
                well_formed(self.edges@),
                self@ == graph_of(self.edges@),
                forall|k: int|
                    0 <= k < i ==> !views((#[trigger] self.edges@[k]).targets@).contains(n@),
            decreases self.edges@.len() - i,
        {
            match find(&self.edges[i].targets, n) {
                Some(k) => {
                    proof {
                        lemma_entry(self.edges@, i as int);
                        assert(views(self.edges@[i as int].targets@)[k as int] == n@);
                        assert(self@.has_edge(self.edges@[i as int].node@, n@));
                    }
                    return true;
                },
                None => {},
            }
            i = i + 1;
        }
        assert forall|other: NodeView| !#[trigger] self@.has_edge(other, n@) by {
            if self@.has_edge(other, n@) {
                let k = keys(self.edges@).index_of(other);
                lemma_entry(self.edges@, k);
            }
        }
        false
    }

    /// Returns the number of outgoing edges.
    pub fn outgoing_count(&self, from: &Node) -> (count: usize)
        ensures
            self@.targets(from@).finite(),
            count == self@.targets(from@).len(),
    {
        proof {
            use_type_invariant(self);
        }
        match find_entry(&self.edges, from) {
            Some(i) => {
                proof {
                    lemma_entry(self.edges@, i as int);
                    views(self.edges@[i as int].targets@).unique_seq_to_set();
                    vstd::seq_lib::seq_to_set_is_finite(views(self.edges@[i as int].targets@));
                }
                self.edges[i].targets.len()
            },
            None => 0,
        }
    }

    /// Return all outgoing neighbors (clone).
    pub fn outgoing(&self, from: &Node) -> (targets: Vec<Node>)
        ensures
            views(targets@).no_duplicates(),
            views(targets@).to_set() == self@.targets(from@),
    {
        proof {
            use_type_invariant(self);
        }
        match find_entry(&self.edges, from) {
            Some(i) => {
                proof {
                    lemma_entry(self.edges@, i as int);
                }
                copy_of(&self.edges[i].targets)
            },
            None => {
                let targets: Vec<Node> = Vec::new();
                assert(views(targets@).to_set() =~= Set::empty());
                targets
            },
        }
    }

    /// Remove all edges originating from a node (task finished or lock released)
    pub fn clear_edges_from(&mut self, n: &Node)
        ensures
            final(self)@ == old(self)@.clear_edges_from(n@),
    {
        proof {
            use_type_invariant(&*self);
        }
        let mut entries: Vec<Entry> = Vec::new();
        std::mem::swap(&mut entries, &mut self.edges);
        self.edges = without_source(entries, n);
    }

    /// Remove all edges into a node (lock released)
    pub fn clear_edges_to(&mut self, n: &Node)
        ensures
            final(self)@ == old(self)@.clear_edges_to(n@),
    {
        proof {
            use_type_invariant(&*self);
        }
        let mut entries: Vec<Entry> = Vec::new();
        std::mem::swap(&mut entries, &mut self.edges);
        self.edges = without_target(entries, n);
    }

    /// Remove all nodes for a task (task ended)
    pub fn remove_task(&mut self, id: TaskId)
        ensures
            final(self)@ == old(self)@.remove_task(id),
    {
        let t = Node::Task(id);
        self.clear_edges_from(&t);
        self.clear_edges_to(&t);
    }

    /// Return all nodes currently present in the graph: each once, the sources first.
    pub fn nodes(&self) -> (out: Vec<Node>)
        ensures
            views(out@).no_duplicates(),
            forall|node: NodeView| #[trigger]
                views(out@).contains(node) <==> self@.has_node(node),
            forall|i: int, j: int|
                0 <= i < j < out@.len() && self@.edges.contains_key((#[trigger] out@[j])@)
                    ==> self@.edges.contains_key((#[trigger] out@[i])@),
    {
        proof {
            use_type_invariant(self);
        }
        let mut out: Vec<Node> = Vec::new();
        // outgoing nodes
        let mut i: usize = 0;
        while i < self.edges.len()
            invariant
                i <= self.edges@.len(),
                views(out@) == keys(self.edges@).take(i as int),
            decreases self.edges@.len() - i,
        {
            let ghost before = views(out@);
            out.push(self.edges[i].node.clone());
            assert(views(out@) =~= before.push(self.edges@[i as int].node@));
            assert(keys(self.edges@).take(i + 1) =~= before.push(keys(self.edges@)[i as int]));
            i = i + 1;
        }
        assert(keys(self.edges@).take(i as int) =~= keys(self.edges@));
        let ghost count = out@.len() as int;
        // nodes only appearing as destinations
        i = 0;
        while i < self.edges.len()
            invariant
                i <= self.edges@.len(),
                well_formed(self.edges@),
                self@ == graph_of(self.edges@),
                nodes_so_far(self.edges@, views(out@), count),
                forall|a: int, b: int|
                    0 <= a < i && 0 <= b < self.edges@[a].targets@.len() ==> views(out@).contains(
                        (#[trigger] self.edges@[a].targets@[b])@,
                    ),
            decreases self.edges@.len() - i,
        {
            let mut k: usize = 0;
            while k < self.edges[i].targets.len()
                invariant
                    i < self.edges@.len(),
                    k <= self.edges@[i as int].targets@.len(),
                    well_formed(self.edges@),
                    self@ == graph_of(self.edges@),
                    nodes_so_far(self.edges@, views(out@), count),
                    forall|a: int, b: int|
                        0 <= a < i && 0 <= b < self.edges@[a].targets@.len() ==> views(
                            out@,
                        ).contains((#[trigger] self.edges@[a].targets@[b])@),
                    forall|b: int|
                        0 <= b < k ==> views(out@).contains(
                            (#[trigger] self.edges@[i as int].targets@[b])@,
                        ),
                decreases self.edges@[i as int].targets@.len() - k,
            {
                let target = &self.edges[i].targets[k];
                let ghost before = views(out@);
                match find(&out, target) {
                    Some(at) => {
                        assert(views(out@)[at as int] == target@);
                    },
                    None => {
                        out.push(target.clone());
                        proof {
                            assert(views(out@) =~= before.push(target@));
                            lemma_entry(self.edges@, i as int);
                            assert(views(self.edges@[i as int].targets@)[k as int] == target@);
                            assert(graph_of(self.edges@).has_edge(
                                self.edges@[i as int].node@,
                                target@,
                            ));
                            lemma_nodes_push(self.edges@, before, count, target@);
                            lemma_push_to_set(before, target@);
                        }
                    },
                }
                assert forall|node: NodeView| before.contains(node) implies views(
                    out@,
                ).contains(node) by {
                    assert(before.to_set().contains(node));
                    assert(views(out@).to_set().contains(node));
                }
                assert(views(out@).to_set().contains(target@));
                k = k + 1;
            }
            i = i + 1;
        }
        proof {
            assert forall|node: NodeView| #[trigger]
                views(out@).contains(node) <==> self@.has_node(node) by {
                if self@.edges.contains_key(node) {
                    let a = keys(self.edges@).index_of(node);
                    assert(views(out@)[a] == node);
                } else if exists|from: NodeView| #[trigger] self@.has_edge(from, node) {
                    let from = choose|from: NodeView| #[trigger] self@.has_edge(from, node);
                    let a = keys(self.edges@).index_of(from);
                    lemma_entry(self.edges@, a);
                    let ts = views(self.edges@[a].targets@);
                    let b = choose|b: int| 0 <= b < ts.len() && ts[b] == node;
                    assert(self.edges@[a].targets@[b]@ == node);
                }
            }
            assert forall|a: int, b: int|
                0 <= a < b < out@.len() && self@.edges.contains_key(
                    (#[trigger] out@[b])@,
                ) implies self@.edges.contains_key((#[trigger] out@[a])@) by {
                let at = keys(self.edges@).index_of(out@[b]@);
                assert(views(out@)[at] == views(out@)[b]);
                assert(keys(self.edges@)[a] == views(out@)[a]);
            }
        }
        out
    }

    /// Cycle detection using DFS.
    pub fn detect_cycle(&self) -> (found: Option<Vec<Node>>)
        ensures
            match found {
                Some(cycle) => self@.is_cycle(views(cycle@)),
                None => !self@.has_cycle(),
            },
            found is Some <==> self@.has_cycle(),
    {
        proof {
            use_type_invariant(self);
        }
        let adj = arcs(&self.edges);
        match crate::search::find_cycle(&adj) {
            Some(places) => {
                let mut cycle: Vec<Node> = Vec::new();
                let mut k: usize = 0;
                assert forall|m: int| 0 <= m < places@.len() implies (#[trigger] places@[m])
                    < self.edges@.len() by {
                    assert(crate::search::arc(
                        adj@,
                        places@[m],
                        crate::model::after(places@, m),
                    ));
                }
                while k < places.len()
                    invariant
                        k <= places@.len(),
                        forall|m: int|
                            0 <= m < places@.len() ==> (#[trigger] places@[m]) < self.edges@.len(),
                        cycle@.len() == k,
                        forall|m: int|
                            0 <= m < k ==> (#[trigger] cycle@[m])
                                == self.edges@[places@[m] as int].node,
                    decreases places@.len() - k,
                {
                    cycle.push(self.edges[places[k]].node.clone());
                    k = k + 1;
                }
                proof {
                    lemma_cycle_at(self.edges@, adj@, places@, views(cycle@));
                }
                Some(cycle)
            },
            None => {
                proof {
                    assert(self.edges.len() == self.edges@.len());
                    assert forall|walk: Seq<NodeView>| !self@.is_closed_walk(walk) by {
                        if self@.is_closed_walk(walk) {
                            lemma_places_of(self.edges@, adj@, walk);
                        }
                    }
                }
                None
            },
        }
    }
}

/// `nodes` starts with the sources and holds no node twice, and none that is
/// not in the graph.
spec fn nodes_so_far(entries: Seq<Entry>, nodes: Seq<NodeView>, count: int) -> bool {
    &&& count == entries.len()
    &&& count <= nodes.len()
    &&& nodes.take(count) == keys(entries)
    &&& nodes.no_duplicates()
    &&& forall|i: int|
        0 <= i < nodes.len() ==> graph_of(entries).has_node(#[trigger] nodes[i])
}

proof fn lemma_nodes_push(
    entries: Seq<Entry>,
    nodes: Seq<NodeView>,
    count: int,
    node: NodeView,
)
    requires
        nodes_so_far(entries, nodes, count),
        !nodes.contains(node),
        graph_of(entries).has_node(node),
    ensures
        nodes_so_far(entries, nodes.push(node), count),
{
    assert(nodes.push(node).take(count) =~= nodes.take(count));
}

/// `adj` has the edges between the sources of `entries`, each source by its position.
spec fn arcs_of(entries: Seq<Entry>, adj: Seq<Vec<usize>>) -> bool {
    &&& adj.len() == entries.len()
    &&& crate::search::in_bounds(adj)
    &&& forall|a: usize, b: usize|
        a < entries.len() && b < entries.len() ==> (#[trigger] crate::search::arc(adj, a, b)
            <==> views(entries[a as int].targets@).contains(entries[b as int].node@))
}

/// The edges between the sources of `entries`, each source by its position.
fn arcs(entries: &Vec<Entry>) -> (adj: Vec<Vec<usize>>)
    requires
        well_formed(entries@),
    ensures
        arcs_of(entries@, adj@),
{
    let mut adj: Vec<Vec<usize>> = Vec::new();
    let mut a: usize = 0;
    while a < entries.len()
        invariant
            a <= entries@.len(),
            well_formed(entries@),
            adj@.len() == a,
            forall|i: int|
                0 <= i < a ==> places_of(
                    entries@,
                    entries@[i].targets@,
                    (#[trigger] adj@[i])@,
                    entries@[i].targets@.len() as int,
                ),
        decreases entries@.len() - a,
    {
        let targets = &entries[a].targets;
        let mut places: Vec<usize> = Vec::new();
        let mut k: usize = 0;
        while k < targets.len()
            invariant
                k <= targets@.len(),
                well_formed(entries@),
                places_of(entries@, targets@, places@, k as int),
            decreases targets@.len() - k,
        {
            let ghost before = places@;
            match find_entry(entries, &targets[k]) {
                Some(b) => {
                    places.push(b);
                    proof {
                        lemma_places_push(entries@, targets@, before, k as int, b);
                    }
                },
                None => {
                    proof {
                        lemma_places_skip(entries@, targets@, before, k as int);
                    }
                },
            }
            k = k + 1;
        }
        adj.push(places);
        a = a + 1;
    }
    proof {
        assert forall|a: usize, b: usize|
            a < entries@.len() && b < entries@.len() implies (#[trigger] crate::search::arc(
            adj@,
            a,
            b,
        ) <==> views(entries@[a as int].targets@).contains(entries@[b as int].node@)) by {
            let targets = entries@[a as int].targets@;
            let places = adj@[a as int]@;
            let node = entries@[b as int].node@;
            if places.contains(b) {
                let m = choose|m: int| 0 <= m < places.len() && places[m] == b;
                let k = choose|k: int|
                    0 <= k < targets.len() && (#[trigger] targets[k])@
                        == entries@[places[m] as int].node@;
                assert(views(targets)[k] == node);
            }
            if views(targets).contains(node) {
                let k = choose|k: int| 0 <= k < targets.len() && views(targets)[k] == node;
                assert(targets[k]@ == entries@[b as int].node@);
            }
        }
    }
    adj
}

/// `places` are the positions of the sources among the first `upto` of `targets`.
spec fn places_of(
    entries: Seq<Entry>,
    targets: Seq<Node>,
    places: Seq<usize>,
    upto: int,
) -> bool {
    &&& forall|m: int|
        0 <= m < places.len() ==> (#[trigger] places[m]) < entries.len() && exists|k: int|
            0 <= k < upto && (#[trigger] targets[k])@ == entries[places[m] as int].node@
    &&& forall|k: int, b: usize|
        0 <= k < upto && b < entries.len() && (#[trigger] targets[k])@ == (
        #[trigger] entries[b as int]).node@ ==> places.contains(b)
}

proof fn lemma_places_push(
    entries: Seq<Entry>,
    targets: Seq<Node>,
    places: Seq<usize>,
    upto: int,
    b: usize,
)
    requires
        well_formed(entries),
        0 <= upto < targets.len(),
        places_of(entries, targets, places, upto),
        b < entries.len(),
        entries[b as int].node@ == targets[upto]@,
    ensures
        places_of(entries, targets, places.push(b), upto + 1),
{
    let more = places.push(b);
    assert forall|m: int| 0 <= m < more.len() implies (#[trigger] more[m]) < entries.len()
        && exists|k: int|
        0 <= k < upto + 1 && (#[trigger] targets[k])@ == entries[more[m] as int].node@ by {
        if m < places.len() {
            assert(more[m] == places[m]);
            let k = choose|k: int|
                0 <= k < upto && (#[trigger] targets[k])@ == entries[places[m] as int].node@;
            assert(targets[k]@ == entries[more[m] as int].node@);
        } else {
            assert(targets[upto]@ == entries[more[m] as int].node@);
        }
    }
    assert forall|k: int, c: usize|
        0 <= k < upto + 1 && c < entries.len() && (#[trigger] targets[k])@ == (
        #[trigger] entries[c as int]).node@ implies more.contains(c) by {
        if k < upto {
            let m = choose|m: int| 0 <= m < places.len() && places[m] == c;
            assert(more[m] == c);
        } else {
            assert(keys(entries)[c as int] == keys(entries)[b as int]);
            assert(more[places.len() as int] == c);
        }
    }
}

proof fn lemma_places_skip(
    entries: Seq<Entry>,
    targets: Seq<Node>,
    places: Seq<usize>,
    upto: int,
)
    requires
        0 <= upto < targets.len(),
        places_of(entries, targets, places, upto),
        !keys(entries).contains(targets[upto]@),
    ensures
        places_of(entries, targets, places, upto + 1),
{
    assert forall|m: int| 0 <= m < places.len() implies (#[trigger] places[m]) < entries.len()
        && exists|k: int|
        0 <= k < upto + 1 && (#[trigger] targets[k])@ == entries[places[m] as int].node@ by {
        let k = choose|k: int|
            0 <= k < upto && (#[trigger] targets[k])@ == entries[places[m] as int].node@;
        assert(targets[k]@ == entries[places[m] as int].node@);
    }
    assert forall|k: int, c: usize|
        0 <= k < upto + 1 && c < entries.len() && (#[trigger] targets[k])@ == (
        #[trigger] entries[c as int]).node@ implies places.contains(c) by {
        if k == upto {
            assert(keys(entries)[c as int] == targets[upto]@);
        }
    }
}

/// A cycle of positions is a cycle of the nodes at them.
proof fn lemma_cycle_at(
    entries: Seq<Entry>,
    adj: Seq<Vec<usize>>,
    places: Seq<usize>,
    cycle: Seq<NodeView>,
)
    requires
        well_formed(entries),
        arcs_of(entries, adj),
        crate::search::is_cycle(adj, places),
        cycle.len() == places.len(),
        forall|m: int|
            0 <= m < places.len() ==> (#[trigger] places[m]) < entries.len() && cycle[m]
                == entries[places[m] as int].node@,
    ensures
        graph_of(entries).is_cycle(cycle),
{
    assert forall|i: int| 0 <= i < cycle.len() implies graph_of(entries).has_edge(
        cycle[i],
        #[trigger] crate::model::after(cycle, i),
    ) by {
        let j = if i + 1 < cycle.len() {
            i + 1
        } else {
            0
        };
        assert(crate::search::arc(adj, places[i], crate::model::after(places, i)));
        assert(crate::model::after(places, i) == places[j]);
        assert(cycle[j] == entries[places[j] as int].node@);
        lemma_entry(entries, places[i] as int);
    }
    assert forall|i: int, j: int|
        0 <= i < cycle.len() && 0 <= j < cycle.len() && i != j implies cycle[i] != cycle[j] by {
        assert(places[i] != places[j]);
        assert(keys(entries)[places[i] as int] == cycle[i]);
        assert(keys(entries)[places[j] as int] == cycle[j]);
    }
}

/// The positions of the nodes of a closed walk are a closed walk.
proof fn lemma_places_of(entries: Seq<Entry>, adj: Seq<Vec<usize>>, walk: Seq<NodeView>)
    requires
        well_formed(entries),
        arcs_of(entries, adj),
        graph_of(entries).is_closed_walk(walk),
        entries.len() <= usize::MAX,
    ensures
        exists|places: Seq<usize>| crate::search::is_closed_walk(adj, places),
{
    let places = Seq::new(walk.len(), |i: int| keys(entries).index_of(walk[i]) as usize);
    assert forall|i: int| 0 <= i < walk.len() implies (#[trigger] places[i]) < entries.len()
        && entries[places[i] as int].node@ == walk[i] by {
        assert(graph_of(entries).has_edge(walk[i], crate::model::after(walk, i)));
        let at = keys(entries).index_of(walk[i]);
        assert(keys(entries)[at] == walk[i]);
    }
    assert forall|i: int| 0 <= i < places.len() implies crate::search::arc(
        adj,
        places[i],
        #[trigger] crate::model::after(places, i),
    ) by {
        let j = if i + 1 < walk.len() {
            i + 1
        } else {
            0
        };
        assert(graph_of(entries).has_edge(walk[i], crate::model::after(walk, i)));
        assert(places[j] < entries.len());
        lemma_entry(entries, places[i] as int);
    }
    assert(crate::search::is_closed_walk(adj, places));
}

/// The adjacency list without the source `node`.
fn without_source(entries: Vec<Entry>, node: &Node) -> (fewer: Vec<Entry>)
    requires
        well_formed(entries@),
    ensures
        well_formed(fewer@),
        graph_of(fewer@) == graph_of(entries@).clear_edges_from(node@),
{
    let mut fewer = entries;
    let ghost before = fewer@;
    let ghost goal = graph_of(before).clear_edges_from(node@);
    match find_entry(&fewer, node) {
        Some(i) => {
            fewer.remove(i);
            proof {
                let at = i as int;
                assert(keys(fewer@) =~= keys(before).remove(at));
                assert forall|j: int| 0 <= j < fewer@.len() implies goal.edges[(
                #[trigger] fewer@[j]).node@] == views(fewer@[j].targets@).to_set()
                    && views(fewer@[j].targets@).no_duplicates() by {
                    let k = if j < at {
                        j
                    } else {
                        j + 1
                    };
                    assert(fewer@[j] == before[k]);
                    lemma_entry(before, k);
                    assert(keys(before)[k] != keys(before)[at]);
                }
                assert forall|a: int, b: int|
                    0 <= a < fewer@.len() && 0 <= b < fewer@.len() && a != b implies keys(fewer@)[a]
                    != keys(fewer@)[b] by {
                    let ka = if a < at {
                        a
                    } else {
                        a + 1
                    };
                    let kb = if b < at {
                        b
                    } else {
                        b + 1
                    };
                    assert(keys(before)[ka] != keys(before)[kb]);
                }
                assert forall|n: NodeView| #[trigger]
                    goal.edges.contains_key(n) <==> keys(fewer@).contains(n) by {
                    if keys(before).contains(n) && n != node@ {
                        let k = keys(before).index_of(n);
                        let j = if k < at {
                            k
                        } else {
                            k - 1
                        };
                        assert(keys(fewer@)[j] == n);
                    }
                    if keys(fewer@).contains(n) {
                        let j = keys(fewer@).index_of(n);
                        let k = if j < at {
                            j
                        } else {
                            j + 1
                        };
                        assert(keys(before)[k] == n);
                        assert(keys(before)[k] != keys(before)[at]);
                    }
                }
                lemma_graph_of(fewer@, goal);
            }
        },
        None => {
            assert(goal.edges =~= graph_of(before).edges);
        },
    }
    fewer
}

/// The adjacency list without the edges into `node`.
fn without_target(entries: Vec<Entry>, node: &Node) -> (fewer: Vec<Entry>)
    requires
        well_formed(entries@),
    ensures
        well_formed(fewer@),
        graph_of(fewer@) == graph_of(entries@).clear_edges_to(node@),
{
    let mut fewer = entries;
    let ghost before = fewer@;
    let ghost goal = graph_of(before).clear_edges_to(node@);
    let mut i: usize = 0;
    while i < fewer.len()
        invariant
            i <= fewer@.len(),
            well_formed(before),
            fewer@.len() == before.len(),
            forall|j: int| i <= j < before.len() ==> fewer@[j] == #[trigger] before[j],
            forall|j: int|
                0 <= j < i ==> {
                    &&& (#[trigger] fewer@[j]).node == before[j].node
                    &&& views(fewer@[j].targets@).no_duplicates()
                    &&& views(fewer@[j].targets@).to_set() == views(
                        before[j].targets@,
                    ).to_set().remove(node@)
                },
        decreases fewer@.len() - i,
    {
        let ghost targets = views(fewer@[i as int].targets@);
        assert(fewer@[i as int] == before[i as int]);
        match find(&fewer[i].targets, node) {
            Some(k) => {
                fewer[i].targets.remove(k);
                proof {
                    assert(views(fewer@[i as int].targets@) =~= targets.remove(k as int));
                    lemma_remove_distinct(targets, k as int);
                }
            },
            None => {
                assert(targets.to_set() =~= targets.to_set().remove(node@));
            },
        }
        i = i + 1;
    }
    proof {
        assert(keys(fewer@) =~= keys(before));
        assert forall|j: int| 0 <= j < fewer@.len() implies goal.edges[(
        #[trigger] fewer@[j]).node@] == views(fewer@[j].targets@).to_set() by {
            lemma_entry(before, j);
        }
        lemma_graph_of(fewer@, goal);
    }
    fewer
}

/// Removing the one occurrence of an element.
proof fn lemma_remove_distinct<T>(s: Seq<T>, at: int)
    requires
        s.no_duplicates(),
        0 <= at < s.len(),
    ensures
        s.remove(at).no_duplicates(),
        s.remove(at).to_set() == s.to_set().remove(s[at]),
{
    let shorter = s.remove(at);
    assert forall|x: T| shorter.to_set().contains(x) <==> s.to_set().remove(s[at]).contains(x) by {
        if shorter.contains(x) {
            let j = choose|j: int| 0 <= j < shorter.len() && shorter[j] == x;
            let k = if j < at {
                j
            } else {
                j + 1
            };
            assert(s[k] == x);
        }
        if s.contains(x) && x != s[at] {
            let k = choose|k: int| 0 <= k < s.len() && s[k] == x;
            let j = if k < at {
                k
            } else {
                k - 1
            };
            assert(shorter[j] == x);
        }
    }
    assert(shorter.to_set() =~= s.to_set().remove(s[at]));
}

/// The adjacency list with the edge from `from` to `to` added.
fn with_edge(entries: Vec<Entry>, from: Node, to: Node) -> (more: Vec<Entry>)
    requires
        well_formed(entries@),
    ensures
        well_formed(more@),
        graph_of(more@) == graph_of(entries@).add_edge(from@, to@),
{
    let mut more = entries;
    let ghost before = more@;
    let ghost goal = graph_of(before).add_edge(from@, to@);
    match find_entry(&more, &from) {
        Some(i) => {
            proof {
                lemma_entry(before, i as int);
            }
            match find(&more[i].targets, &to) {
                Some(k) => {
                    assert(views(before[i as int].targets@)[k as int] == to@);
                    assert(goal.edges =~= graph_of(before).edges) by {
                        assert(goal.edges[from@] =~= graph_of(before).edges[from@]);
                    }
                },
                None => {
                    more[i].targets.push(to);
                    proof {
                        let old_targets = views(before[i as int].targets@);
                        let new_targets = views(more@[i as int].targets@);
                        assert(new_targets =~= old_targets.push(to@));
                        assert(keys(more@) =~= keys(before));
                        assert(new_targets.to_set() =~= old_targets.to_set().insert(to@)) by {
                            lemma_push_to_set(old_targets, to@);
                        }
                        lemma_push_distinct(old_targets, to@);
                        assert forall|j: int| 0 <= j < more@.len() implies goal.edges[(
                        #[trigger] more@[j]).node@] == views(more@[j].targets@).to_set() by {
                            lemma_entry(before, j);
                            if j != i {
                                assert(keys(before)[j] != keys(before)[i as int]);
                            }
                        }
                        lemma_graph_of(more@, goal);
                    }
                },
            }
        },
        None => {
            let mut targets: Vec<Node> = Vec::new();
            targets.push(to);
            more.push(Entry { node: from, targets });
            proof {
                let n = before.len() as int;
                assert(keys(more@) =~= keys(before).push(from@));
                lemma_push_distinct(keys(before), from@);
                lemma_push_to_set(keys(before), from@);
                let new_targets = views(more@[n].targets@);
                assert(new_targets =~= seq![to@]);
                assert(new_targets =~= Seq::<NodeView>::empty().push(to@));
                lemma_push_to_set(Seq::empty(), to@);
                assert(Seq::<NodeView>::empty().to_set() =~= Set::empty());
                assert forall|j: int| 0 <= j < more@.len() implies goal.edges[(
                #[trigger] more@[j]).node@] == views(more@[j].targets@).to_set() by {
                    if j < n {
                        lemma_entry(before, j);
                        assert(keys(before)[j] == before[j].node@);
                    }
                }
                assert forall|node: NodeView| #[trigger]
                    goal.edges.contains_key(node) <==> keys(more@).contains(node) by {
                    assert(keys(more@).to_set().contains(node) <==> keys(before).to_set().insert(
                        from@,
                    ).contains(node));
                }
                lemma_graph_of(more@, goal);
            }
        },
    }
    more
}

proof fn lemma_push_to_set<T>(s: Seq<T>, x: T)
    ensures
        s.push(x).to_set() == s.to_set().insert(x),
{
    let longer = s.push(x);
    assert forall|y: T| longer.to_set().contains(y) <==> s.to_set().insert(x).contains(y) by {
        if s.contains(y) {
            let i = choose|i: int| 0 <= i < s.len() && s[i] == y;
            assert(longer[i] == y);
        }
        assert(longer[s.len() as int] == x);
    }
    assert(longer.to_set() =~= s.to_set().insert(x));
}

proof fn lemma_push_distinct<T>(s: Seq<T>, x: T)
    requires
        s.no_duplicates(),
        !s.contains(x),
    ensures
        s.push(x).no_duplicates(),
{
}

} // verus!
