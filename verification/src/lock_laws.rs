//! What the wait-for graph says of monitored mutexes.

use crate::model::{GraphView, NodeView};
use vstd::prelude::*;

verus! {

/// Which task waits for which lock, and which lock is held by which task.
///
/// All tasks that are not monitored are the one task 0.
#[verifier::ext_equal]
pub struct LockFacts {
    pub waits: Set<(u64, Seq<char>)>,
    pub holds: Set<(Seq<char>, u64)>,
}

impl LockFacts {
    /// No task waits and no lock is held.
    pub open spec fn none() -> LockFacts {
        LockFacts { waits: Set::empty(), holds: Set::empty() }
    }

    /// The task starts to wait for the lock.
    pub open spec fn wait(self, task: u64, lock: Seq<char>) -> LockFacts {
        LockFacts { waits: self.waits.insert((task, lock)), ..self }
    }

    /// The task gets the lock it waited for.
    pub open spec fn acquire(self, task: u64, lock: Seq<char>) -> LockFacts {
        LockFacts {
            waits: self.waits.remove((task, lock)),
            holds: self.holds.insert((lock, task)),
        }
    }

    /// The task gets the lock without waiting.
    pub open spec fn own(self, task: u64, lock: Seq<char>) -> LockFacts {
        LockFacts { holds: self.holds.insert((lock, task)), ..self }
    }

    /// The lock is released by whoever holds it.
    pub open spec fn release(self, lock: Seq<char>) -> LockFacts {
        LockFacts { holds: self.holds.filter(|held: (Seq<char>, u64)| held.0 != lock), ..self }
    }

    /// The task gives up waiting for the lock.
    pub open spec fn abandon(self, task: u64, lock: Seq<char>) -> LockFacts {
        LockFacts { waits: self.waits.remove((task, lock)), ..self }
    }

    /// The edge from `from` to `to` tells a fact.
    pub open spec fn told_by(self, from: NodeView, to: NodeView) -> bool {
        match (from, to) {
            (NodeView::Task(task), NodeView::Lock(lock)) => self.waits.contains((task, lock)),
            (NodeView::Lock(lock), NodeView::Task(task)) => self.holds.contains((lock, task)),
            _ => false,
        }
    }

    /// Every edge of the graph tells a fact.
    pub open spec fn back(self, graph: GraphView) -> bool {
        forall|from: NodeView, to: NodeView| #[trigger]
            graph.has_edge(from, to) ==> self.told_by(from, to)
    }

    /// The edges of the graph tell the facts, and all of them.
    pub open spec fn are_told_by(self, graph: GraphView) -> bool {
        forall|from: NodeView, to: NodeView| #[trigger]
            graph.has_edge(from, to) <==> self.told_by(from, to)
    }

    /// Each of the tasks waits for the lock at its position, which the next task holds.
    pub open spec fn circular_wait(self, tasks: Seq<u64>, locks: Seq<Seq<char>>) -> bool {
        &&& tasks.len() > 0
        &&& tasks.len() == locks.len()
        &&& forall|i: int|
            0 <= i < tasks.len() ==> self.waits.contains((tasks[i], #[trigger] locks[i]))
                && self.holds.contains((locks[i], crate::model::after(tasks, i)))
    }
}

proof fn lemma_acquire_edges(graph: GraphView, task: u64, lock: Seq<char>)
    ensures
        forall|a: NodeView, b: NodeView| #[trigger]
            graph.acquire(task, lock).has_edge(a, b) <==> (graph.has_edge(a, b) && a
                != NodeView::Task(task)) || (a == NodeView::Lock(lock) && b == NodeView::Task(
                task,
            )),
{
    crate::graph_laws::law_clear_edges_from(graph, NodeView::Task(task));
    crate::graph_laws::law_add_edge(
        graph.clear_edges_from(NodeView::Task(task)),
        NodeView::Lock(lock),
        NodeView::Task(task),
    );
}

/// Releasing a lock takes it out of the graph, with all edges from and to it and no other.
pub proof fn law_release(graph: GraphView, lock: Seq<char>)
    ensures
        !graph.release(lock).touches(NodeView::Lock(lock)),
        !graph.release(lock).has_node(NodeView::Lock(lock)),
        forall|a: NodeView, b: NodeView| #[trigger]
            graph.release(lock).has_edge(a, b) <==> graph.has_edge(a, b) && a != NodeView::Lock(
                lock,
            ) && b != NodeView::Lock(lock),
{
    crate::graph_laws::law_clear_edges_from(graph, NodeView::Lock(lock));
    crate::graph_laws::law_clear_edges_to(
        graph.clear_edges_from(NodeView::Lock(lock)),
        NodeView::Lock(lock),
    );
}

/// A task that has just acquired a lock waits for nothing and is an owner of the lock.
pub proof fn law_acquire(graph: GraphView, task: u64, lock: Seq<char>)
    ensures
        graph.acquire(task, lock).has_edge(NodeView::Lock(lock), NodeView::Task(task)),
        graph.acquire(task, lock).targets(NodeView::Task(task)) == Set::<NodeView>::empty(),
        graph.targets(NodeView::Lock(lock)) == Set::<NodeView>::empty() ==> graph.acquire(
            task,
            lock,
        ).targets(NodeView::Lock(lock)) == Set::empty().insert(NodeView::Task(task)),
{
}

/// Waiting for a lock, acquiring it and releasing it leaves the graph as it was, where
/// the task was recorded as no source and the lock was not in the graph.
pub proof fn law_lock_and_release(graph: GraphView, task: u64, lock: Seq<char>)
    requires
        !graph.edges.contains_key(NodeView::Task(task)),
        !graph.has_node(NodeView::Lock(lock)),
    ensures
        graph.wait(task, lock).acquire(task, lock).release(lock) == graph,
{
    let after = graph.wait(task, lock).acquire(task, lock).release(lock);
    assert forall|node: NodeView| #[trigger]
        graph.edges.contains_key(node) implies after.edges[node] == graph.edges[node] by {
        assert(!graph.has_edge(node, NodeView::Lock(lock)));
        assert(after.edges[node] =~= graph.edges[node]);
    }
    assert(after.edges =~= graph.edges);
}

/// The empty graph tells that nothing waits and nothing is held.
pub proof fn law_no_facts()
    ensures
        LockFacts::none().are_told_by(GraphView::empty()),
{
}

/// No edge is untrue: where every edge of the graph tells a fact, every edge still does
/// after a task starts to wait, acquires a lock (with or without waiting), or releases
/// one.
pub proof fn law_edges_stay_true(
    facts: LockFacts,
    graph: GraphView,
    task: u64,
    lock: Seq<char>,
)
    requires
        facts.back(graph),
    ensures
        facts.wait(task, lock).back(graph.wait(task, lock)),
        facts.acquire(task, lock).back(graph.acquire(task, lock)),
        facts.own(task, lock).back(graph.own(task, lock)),
        facts.release(lock).back(graph.release(lock)),
{
    crate::graph_laws::law_add_edge(graph, NodeView::Task(task), NodeView::Lock(lock));
    crate::graph_laws::law_add_edge(graph, NodeView::Lock(lock), NodeView::Task(task));
    lemma_acquire_edges(graph, task, lock);
    law_release(graph, lock);
}

/// Tasks that wait for each other in a ring are a cycle of a graph that tells all the
/// facts.
pub proof fn law_circular_wait_is_cycle(
    facts: LockFacts,
    graph: GraphView,
    tasks: Seq<u64>,
    locks: Seq<Seq<char>>,
)
    requires
        facts.are_told_by(graph),
        facts.circular_wait(tasks, locks),
    ensures
        graph.has_cycle(),
{
    let n = tasks.len();
    let walk = Seq::new(
        2 * n,
        |i: int|
            if i % 2 == 0 {
                NodeView::Task(tasks[i / 2])
            } else {
                NodeView::Lock(locks[i / 2])
            },
    );
    assert forall|i: int| 0 <= i < walk.len() implies graph.has_edge(
        walk[i],
        #[trigger] crate::model::after(walk, i),
    ) by {
        let k = i / 2;
        assert(facts.waits.contains((tasks[k], locks[k])) && facts.holds.contains(
            (locks[k], crate::model::after(tasks, k)),
        ));
        if i % 2 == 0 {
            assert(walk[i + 1] == NodeView::Lock(locks[k]));
            assert(facts.told_by(walk[i], walk[i + 1]));
        } else {
            assert(walk[i] == NodeView::Lock(locks[k]));
            let next = NodeView::Task(crate::model::after(tasks, k));
            if i + 1 < walk.len() {
                assert((i + 1) / 2 == k + 1);
                assert(walk[i + 1] == next);
            } else {
                assert(k + 1 == n);
                assert(walk[0] == next);
            }
            assert(facts.told_by(walk[i], next));
        }
    }
    assert(graph.is_closed_walk(walk));
}

/// Tasks and locks take turns along a closed walk.
proof fn lemma_turns(facts: LockFacts, graph: GraphView, walk: Seq<NodeView>, i: int)
    requires
        facts.back(graph),
        graph.is_closed_walk(walk),
        0 <= i < walk.len(),
    ensures
        walk[i] is Task <==> (walk[0] is Task <==> i % 2 == 0),
    decreases i,
{
    if i > 0 {
        lemma_turns(facts, graph, walk, i - 1);
        assert(graph.has_edge(walk[i - 1], crate::model::after(walk, i - 1)));
    }
}

/// A reported cycle is true: where every edge of the graph tells a fact, the tasks of a
/// closed walk wait for each other in a ring.
pub proof fn law_cycle_is_circular_wait(
    facts: LockFacts,
    graph: GraphView,
    walk: Seq<NodeView>,
)
    requires
        facts.back(graph),
        graph.is_closed_walk(walk),
    ensures
        exists|tasks: Seq<u64>, locks: Seq<Seq<char>>| #[trigger]
            facts.circular_wait(tasks, locks) && forall|i: int|
                0 <= i < tasks.len() ==> walk.contains(NodeView::Task(#[trigger] tasks[i])),
{
    let len = walk.len() as int;
    lemma_turns(facts, graph, walk, len - 1);
    assert(graph.has_edge(walk[len - 1], crate::model::after(walk, len - 1)));
    let n = len / 2;
    assert(len == 2 * n);
    // where the first task stands
    let s: int = if walk[0] is Task {
        0
    } else {
        1
    };
    let tasks = Seq::new(n as nat, |i: int| walk[2 * i + s]->Task_0);
    let locks = Seq::new(n as nat, |i: int| crate::model::after(walk, 2 * i + s)->Lock_0);
    assert forall|i: int| 0 <= i < n implies facts.waits.contains((tasks[i], #[trigger] locks[i]))
        && facts.holds.contains((locks[i], crate::model::after(tasks, i))) && walk.contains(
        NodeView::Task(tasks[i]),
    ) by {
        let a = 2 * i + s;
        let b = if a + 1 < len {
            a + 1
        } else {
            0
        };
        lemma_turns(facts, graph, walk, a);
        lemma_turns(facts, graph, walk, b);
        assert(graph.has_edge(walk[a], crate::model::after(walk, a)));
        assert(graph.has_edge(walk[b], crate::model::after(walk, b)));
        assert(facts.told_by(walk[a], walk[b]));
        let c = if b + 1 < len {
            b + 1
        } else {
            0
        };
        assert(facts.told_by(walk[b], walk[c]));
        if i + 1 < n {
            assert(c == 2 * (i + 1) + s);
        } else {
            assert(c == s);
        }
        assert(crate::model::after(tasks, i) == walk[c]->Task_0);
        assert(walk[a] == NodeView::Task(tasks[i]));
    }
    assert forall|i: int| 0 <= i < tasks.len() implies walk.contains(
        NodeView::Task(#[trigger] tasks[i]),
    ) by {
        assert(facts.waits.contains((tasks[i], locks[i])));
    }
    assert(facts.circular_wait(tasks, locks));
}

/// Something that happens to a monitored mutex.
pub enum LockEvent {
    /// the task starts to wait for the lock
    Wait(u64, Seq<char>),
    /// the task gets the lock that it waited for
    Acquire(u64, Seq<char>),
    /// the task gets the lock without waiting
    Own(u64, Seq<char>),
    /// the lock is released
    Release(Seq<char>),
    /// the task gives up waiting for the lock, of which the graph is not told
    Abandon(u64, Seq<char>),
}

/// What is so after the events.
pub open spec fn facts_after(events: Seq<LockEvent>) -> LockFacts
    decreases events.len(),
{
    if events.len() == 0 {
        LockFacts::none()
    } else {
        let before = facts_after(events.drop_last());
        match events.last() {
            LockEvent::Wait(task, lock) => before.wait(task, lock),
            LockEvent::Acquire(task, lock) => before.acquire(task, lock),
            LockEvent::Own(task, lock) => before.own(task, lock),
            LockEvent::Release(lock) => before.release(lock),
            LockEvent::Abandon(task, lock) => before.abandon(task, lock),
        }
    }
}

/// What the graph records of the events.
pub open spec fn graph_after(events: Seq<LockEvent>) -> GraphView
    decreases events.len(),
{
    if events.len() == 0 {
        GraphView::empty()
    } else {
        let before = graph_after(events.drop_last());
        match events.last() {
            LockEvent::Wait(task, lock) => before.wait(task, lock),
            LockEvent::Acquire(task, lock) => before.acquire(task, lock),
            LockEvent::Own(task, lock) => before.own(task, lock),
            LockEvent::Release(lock) => before.release(lock),
            LockEvent::Abandon(_, _) => before,
        }
    }
}

/// The waits that the graph does not show: since the task began to wait, the lock was
/// released, or the task acquired another lock.
pub open spec fn lost_after(events: Seq<LockEvent>) -> Set<(u64, Seq<char>)>
    decreases events.len(),
{
    if events.len() == 0 {
        Set::empty()
    } else {
        let waits = facts_after(events.drop_last()).waits;
        let before = lost_after(events.drop_last());
        match events.last() {
            LockEvent::Wait(task, lock) => before.remove((task, lock)),
            LockEvent::Acquire(task, lock) => before.union(
                waits.filter(|wait: (u64, Seq<char>)| wait.0 == task),
            ).remove((task, lock)),
            LockEvent::Own(_, _) => before,
            LockEvent::Release(lock) => before.union(
                waits.filter(|wait: (u64, Seq<char>)| wait.1 == lock),
            ),
            LockEvent::Abandon(task, lock) => before.remove((task, lock)),
        }
    }
}

/// The waits that the graph still shows although they were given up: since then, the lock
/// was not released, and the task neither acquired a lock that it waited for nor began to
/// wait for this one again.
pub open spec fn stale_after(events: Seq<LockEvent>) -> Set<(u64, Seq<char>)>
    decreases events.len(),
{
    if events.len() == 0 {
        Set::empty()
    } else {
        let waits = facts_after(events.drop_last()).waits;
        let lost = lost_after(events.drop_last());
        let before = stale_after(events.drop_last());
        match events.last() {
            LockEvent::Wait(task, lock) => before.remove((task, lock)),
            LockEvent::Acquire(task, _) => before.filter(
                |wait: (u64, Seq<char>)| wait.0 != task,
            ),
            LockEvent::Own(_, _) => before,
            LockEvent::Release(lock) => before.filter(|wait: (u64, Seq<char>)| wait.1 != lock),
            LockEvent::Abandon(task, lock) => if waits.contains((task, lock)) && !lost.contains(
                (task, lock),
            ) {
                before.insert((task, lock))
            } else {
                before
            },
        }
    }
}

/// What the graph shows after the events: what is so, without the lost waits and with the
/// stale ones.
pub open spec fn shown_after(events: Seq<LockEvent>) -> LockFacts {
    LockFacts {
        waits: facts_after(events).waits.difference(lost_after(events)).union(
            stale_after(events),
        ),
        ..facts_after(events)
    }
}

/// Whatever of these events happened to the mutexes, the edges of the graph tell exactly
/// who holds which lock, and who waits for which lock, but for lost and stale waits.
pub proof fn law_edges_tell_what_is_shown(events: Seq<LockEvent>)
    ensures
        shown_after(events).are_told_by(graph_after(events)),
    decreases events.len(),
{
    if events.len() == 0 {
        law_no_facts();
    } else {
        law_edges_tell_what_is_shown(events.drop_last());
        let graph = graph_after(events.drop_last());
        match events.last() {
            LockEvent::Wait(task, lock) => {
                crate::graph_laws::law_add_edge(graph, NodeView::Task(task), NodeView::Lock(lock));
            },
            LockEvent::Acquire(task, lock) => {
                lemma_acquire_edges(graph, task, lock);
            },
            LockEvent::Own(task, lock) => {
                crate::graph_laws::law_add_edge(graph, NodeView::Lock(lock), NodeView::Task(task));
            },
            LockEvent::Release(lock) => {
                law_release(graph, lock);
            },
            LockEvent::Abandon(_, _) => {},
        }
    }
}

/// Where no wait was given up, every edge of the graph tells what is so.
pub proof fn law_edges_are_true(events: Seq<LockEvent>)
    requires
        forall|i: int| 0 <= i < events.len() ==> !((#[trigger] events[i]) is Abandon),
    ensures
        stale_after(events) == Set::<(u64, Seq<char>)>::empty(),
        facts_after(events).back(graph_after(events)),
    decreases events.len(),
{
    law_edges_tell_what_is_shown(events);
    if events.len() > 0 {
        let before = events.drop_last();
        assert forall|i: int|
            0 <= i < before.len() implies !((#[trigger] before[i]) is Abandon) by {
            assert(before[i] == events[i]);
        }
        law_edges_are_true(before);
        assert(!(events[events.len() - 1] is Abandon));
    }
    assert(stale_after(events) =~= Set::empty());
}

/// No false alarm: a cycle of the graph of which no task has a stale wait holds tasks that
/// wait for each other in a ring.
pub proof fn law_no_false_alarm(events: Seq<LockEvent>, cycle: Seq<NodeView>)
    requires
        graph_after(events).is_closed_walk(cycle),
        forall|task: u64, lock: Seq<char>| #[trigger]
            stale_after(events).contains((task, lock)) ==> !cycle.contains(NodeView::Task(task)),
    ensures
        exists|tasks: Seq<u64>, locks: Seq<Seq<char>>| #[trigger]
            facts_after(events).circular_wait(tasks, locks) && forall|i: int|
                0 <= i < tasks.len() ==> cycle.contains(NodeView::Task(#[trigger] tasks[i])),
{
    let facts = facts_after(events);
    let shown = shown_after(events);
    law_edges_tell_what_is_shown(events);
    law_cycle_is_circular_wait(shown, graph_after(events), cycle);
    let (tasks, locks) = choose|tasks: Seq<u64>, locks: Seq<Seq<char>>| #[trigger]
        shown.circular_wait(tasks, locks) && forall|i: int|
            0 <= i < tasks.len() ==> cycle.contains(NodeView::Task(#[trigger] tasks[i]));
    assert forall|i: int| 0 <= i < tasks.len() implies facts.waits.contains(
        (tasks[i], #[trigger] locks[i]),
    ) && facts.holds.contains((locks[i], crate::model::after(tasks, i))) by {
        assert(shown.waits.contains((tasks[i], locks[i])));
        assert(cycle.contains(NodeView::Task(tasks[i])));
    }
    assert(facts.circular_wait(tasks, locks));
}

/// No missed deadlock: where tasks wait for each other in a ring of which no wait is lost,
/// the graph has a cycle.
pub proof fn law_no_missed_deadlock(
    events: Seq<LockEvent>,
    tasks: Seq<u64>,
    locks: Seq<Seq<char>>,
)
    requires
        facts_after(events).circular_wait(tasks, locks),
        forall|i: int|
            0 <= i < tasks.len() ==> !lost_after(events).contains((tasks[i], #[trigger] locks[i])),
    ensures
        graph_after(events).has_cycle(),
{
    law_edges_tell_what_is_shown(events);
    assert(shown_after(events).circular_wait(tasks, locks));
    law_circular_wait_is_cycle(shown_after(events), graph_after(events), tasks, locks);
}

/// The graph has a cycle exactly where tasks wait for each other in a ring, by the waits
/// that the graph shows.
pub proof fn law_cycle_exactly_where_shown(events: Seq<LockEvent>)
    ensures
        graph_after(events).has_cycle() <==> exists|tasks: Seq<u64>, locks: Seq<Seq<char>>|
            #[trigger] shown_after(events).circular_wait(tasks, locks),
{
    let shown = shown_after(events);
    let graph = graph_after(events);
    law_edges_tell_what_is_shown(events);
    if graph.has_cycle() {
        let walk = choose|walk: Seq<NodeView>| graph.is_closed_walk(walk);
        law_cycle_is_circular_wait(shown, graph, walk);
    }
    if exists|tasks: Seq<u64>, locks: Seq<Seq<char>>| #[trigger]
        shown.circular_wait(tasks, locks) {
        let (tasks, locks) = choose|tasks: Seq<u64>, locks: Seq<Seq<char>>| #[trigger]
            shown.circular_wait(tasks, locks);
        law_circular_wait_is_cycle(shown, graph, tasks, locks);
    }
}

/// Two tasks that each hold a lock and then wait for the other's are a cycle, whatever
/// else the graph holds.
pub proof fn law_two_tasks_deadlock(
    graph: GraphView,
    a: u64,
    b: u64,
    l1: Seq<char>,
    l2: Seq<char>,
)
    requires
        a != b,
    ensures
        graph.acquire(a, l1).acquire(b, l2).wait(a, l2).wait(b, l1).has_cycle(),
{
    let g1 = graph.acquire(a, l1);
    let g2 = g1.acquire(b, l2);
    let g3 = g2.wait(a, l2);
    let g4 = g3.wait(b, l1);
    lemma_acquire_edges(graph, a, l1);
    lemma_acquire_edges(g1, b, l2);
    crate::graph_laws::law_add_edge(g2, NodeView::Task(a), NodeView::Lock(l2));
    crate::graph_laws::law_add_edge(g3, NodeView::Task(b), NodeView::Lock(l1));
    let walk = seq![
        NodeView::Task(a),
        NodeView::Lock(l2),
        NodeView::Task(b),
        NodeView::Lock(l1),
    ];
    assert forall|i: int| 0 <= i < walk.len() implies g4.has_edge(
        walk[i],
        #[trigger] crate::model::after(walk, i),
    ) by {
        assert(i == 0 || i == 1 || i == 2 || i == 3);
    }
    assert(g4.is_closed_walk(walk));
}

/// Waiting for a lock adds the edge from the task to the lock, holding one the edge from the
/// lock to the task, and neither changes any other edge.
pub proof fn law_wait_and_own(graph: GraphView, task: u64, lock: Seq<char>)
    ensures
        forall|a: NodeView, b: NodeView| #[trigger]
            graph.wait(task, lock).has_edge(a, b) <==> graph.has_edge(a, b) || (a
                == NodeView::Task(task) && b == NodeView::Lock(lock)),
        forall|a: NodeView, b: NodeView| #[trigger]
            graph.own(task, lock).has_edge(a, b) <==> graph.has_edge(a, b) || (a
                == NodeView::Lock(lock) && b == NodeView::Task(task)),
{
    crate::graph_laws::law_add_edge(graph, NodeView::Task(task), NodeView::Lock(lock));
    crate::graph_laws::law_add_edge(graph, NodeView::Lock(lock), NodeView::Task(task));
}

/// Acquiring a lock takes out every edge from the task, adds the edge from the lock to the
/// task, and changes no other edge.
pub proof fn law_acquire_edges(graph: GraphView, task: u64, lock: Seq<char>)
    ensures
        forall|a: NodeView, b: NodeView| #[trigger]
            graph.acquire(task, lock).has_edge(a, b) <==> (graph.has_edge(a, b) && a
                != NodeView::Task(task)) || (a == NodeView::Lock(lock) && b == NodeView::Task(
                task,
            )),
{
    lemma_acquire_edges(graph, task, lock);
}

} // verus!
