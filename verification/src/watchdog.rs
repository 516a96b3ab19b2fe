//! What a watchdog samples, and what it has to report.

use crate::graph::{Node, WaitForGraph};
use crate::model::NodeView;
use crate::monitor::{RegistryView, TaskInfo, TaskRegistry};
use vstd::prelude::*;

verus! {

/// The shortest time between two samples (ms).
pub const MIN_INTERVAL_MS: u64 = 10;

/// The time between two samples, of which at least `interval_ms` were asked for.
pub fn sample_interval(interval_ms: u64) -> (interval: u64)
    ensures
        interval == if interval_ms < MIN_INTERVAL_MS {
            MIN_INTERVAL_MS
        } else {
            interval_ms
        },
        interval >= 10,
        interval_ms >= 10 ==> interval == interval_ms,
        interval_ms < 10 ==> interval == 10,
{
    if interval_ms < MIN_INTERVAL_MS {
        MIN_INTERVAL_MS
    } else {
        interval_ms
    }
}

/// The settings of a watchdog.
#[derive(Debug, Clone, Copy)]
pub struct WatchdogBuilder {
    /// threshold in milliseconds to consider a task stalled
    pub stall_ms: u64,
    /// how often to check, in milliseconds
    pub interval_ms: u64,
}

impl Default for WatchdogBuilder {
    fn default() -> (builder: Self)
        ensures
            builder.stall_ms == 0,
            builder.interval_ms == 0,
    {
        WatchdogBuilder::new()
    }
}

impl WatchdogBuilder {
    /// The smallest threshold and interval.
    pub fn new() -> (builder: Self)
        ensures
            builder.stall_ms == 0,
            builder.interval_ms == 0,
    {
        WatchdogBuilder { stall_ms: 0, interval_ms: 0 }
    }

    /// Sets the threshold to consider a task stalled.
    pub fn stall_threshold_ms(self, stall_ms: u64) -> (builder: Self)
        ensures
            builder == (WatchdogBuilder { stall_ms, ..self }),
    {
        WatchdogBuilder { stall_ms, ..self }
    }

    /// Sets how often to check.
    pub fn sample_interval_ms(self, interval_ms: u64) -> (builder: Self)
        ensures
            builder == (WatchdogBuilder { interval_ms, ..self }),
    {
        WatchdogBuilder { interval_ms, ..self }
    }
}

impl RegistryView {
    /// The registered task that a node stands for.
    pub open spec fn task_at(self, node: NodeView) -> Option<TaskInfo> {
        match node {
            NodeView::Task(id) => if self.tasks.contains_key(id) {
                Some(self.tasks[id])
            } else {
                None
            },
            NodeView::Lock(_) => None,
        }
    }

    /// The registered tasks among `nodes`, in their order.
    pub open spec fn tasks_among(self, nodes: Seq<NodeView>) -> Seq<TaskInfo> {
        nodes.filter_map(|node: NodeView| self.task_at(node))
    }
}

/// The registered tasks of a cycle, in their order.
pub fn cycle_tasks(cycle: &Vec<Node>, registry: &TaskRegistry) -> (tasks: Vec<TaskInfo>)
    ensures
        tasks@ == registry@.tasks_among(crate::graph::views(cycle@)),
{
    let ghost nodes = crate::graph::views(cycle@);
    let mut tasks: Vec<TaskInfo> = Vec::new();
    let mut i: usize = 0;
    while i < cycle.len()
        invariant
            i <= cycle@.len(),
            nodes == crate::graph::views(cycle@),
            tasks@ == registry@.tasks_among(nodes.take(i as int)),
        decreases cycle@.len() - i,
    {
        assert(nodes.take(i + 1).drop_last() =~= nodes.take(i as int));
        if let Node::Task(id) = &cycle[i] {
            if let Some(info) = registry.get(*id) {
                tasks.push(info);
            }
        }
        i = i + 1;
    }
    assert(nodes.take(i as int) =~= nodes);
    tasks
}

/// What a deadlock watchdog has to report: a cycle of the graph with those of its tasks
/// that are registered, which may be none. None where the graph has no cycle.
pub fn deadlock_report(graph: &WaitForGraph, registry: &TaskRegistry) -> (report: Option<
    (Vec<TaskInfo>, Vec<Node>),
>)
    ensures
        report is Some <==> graph@.has_cycle(),
        report matches Some((tasks, cycle)) ==> {
            &&& graph@.is_cycle(crate::graph::views(cycle@))
            &&& tasks@ == registry@.tasks_among(crate::graph::views(cycle@))
        },
{
    match graph.detect_cycle() {
        Some(cycle) => {
            // collect task infos for each Task node
            let tasks = cycle_tasks(&cycle, registry);
            Some((tasks, cycle))
        },
        None => None,
    }
}

} // verus!
