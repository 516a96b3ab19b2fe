//! What holds of the task registry and of the watchdogs' reports.

use crate::lock_laws::LockFacts;
use crate::model::{GraphView, NodeView};
use crate::monitor::{MonitorFuture, RegistryView, TaskId, TaskInfo};
use vstd::prelude::*;

verus! {

impl RegistryView {
    /// Ids are given out in ascending order from 1, and have not run out.
    pub open spec fn ids_ascend(self) -> bool {
        &&& 1 <= self.next
        &&& forall|id: TaskId| #[trigger] self.tasks.contains_key(id) ==> 1 <= id < self.next
    }
}

/// Every task carries the id it is registered under: so it is in the empty registry,
/// and stays so.
pub proof fn law_tasks_carry_their_ids(
    registry: RegistryView,
    info: TaskInfo,
    id: TaskId,
    now: u64,
)
    requires
        registry.wf(),
    ensures
        RegistryView::empty().wf(),
        registry.register(info, now).wf(),
        registry.touch(id, now).wf(),
        registry.poll(id, now).wf(),
        registry.deregister(id).wf(),
{
}

/// A task is given an id that no other task has and that is not 0, as long as ids have
/// not run out.
pub proof fn law_ids_are_fresh(registry: RegistryView, info: TaskInfo, id: TaskId, now: u64)
    requires
        registry.ids_ascend(),
    ensures
        RegistryView::empty().ids_ascend(),
        registry.next != 0,
        !registry.tasks.contains_key(registry.next),
        registry.next < u64::MAX ==> registry.register(info, now).ids_ascend(),
        registry.touch(id, now).ids_ascend(),
        registry.poll(id, now).ids_ascend(),
        registry.deregister(id).ids_ascend(),
{
}

/// A registered task is found under its id as it was given, with the id and the time
/// filled in; every other task is found as before.
pub proof fn law_register(registry: RegistryView, info: TaskInfo, now: u64)
    ensures
        registry.register(info, now).tasks.contains_key(registry.next),
        registry.register(info, now).tasks[registry.next] == info.with_id(registry.next).touched(
            now,
        ),
        registry.register(info, now).next == (registry.next + 1) % 0x1_0000_0000_0000_0000,
        forall|id: TaskId|
            id != registry.next ==> (#[trigger] registry.register(info, now).tasks.contains_key(id)
                <==> registry.tasks.contains_key(id)) && registry.register(info, now).tasks[id]
                == registry.tasks[id],
{
}

/// Deregistering a task undoes its registration, where its id was not in use.
pub proof fn law_deregister_undoes_register(registry: RegistryView, info: TaskInfo, now: u64)
    requires
        !registry.tasks.contains_key(registry.next),
    ensures
        registry.register(info, now).deregister(registry.next).tasks == registry.tasks,
{
    assert(registry.register(info, now).deregister(registry.next).tasks =~= registry.tasks);
}

/// A deregistered task is not found; every other task is found as before.
pub proof fn law_deregister(registry: RegistryView, id: TaskId)
    ensures
        !registry.deregister(id).tasks.contains_key(id),
        forall|other: TaskId|
            other != id ==> (#[trigger] registry.deregister(id).tasks.contains_key(other)
                <==> registry.tasks.contains_key(other)) && registry.deregister(id).tasks[other]
                == registry.tasks[other],
{
}

/// Touching a task changes its timestamp alone, and no other task.
pub proof fn law_touch(registry: RegistryView, id: TaskId, now: u64)
    ensures
        registry.touch(id, now).tasks.dom() == registry.tasks.dom(),
        registry.touch(id, now).next == registry.next,
        registry.tasks.contains_key(id) ==> registry.touch(id, now).tasks[id]
            == registry.tasks[id].touched(now),
        forall|other: TaskId|
            other != id ==> #[trigger] registry.touch(id, now).tasks[other]
                == registry.tasks[other],
{
    assert(registry.touch(id, now).tasks.dom() =~= registry.tasks.dom());
}

/// A task that made progress at `then` is stalled once more than the threshold has
/// passed since, and not before.
pub proof fn law_stalled_after_threshold(info: TaskInfo, then: u64, now: u64, stall_ms: u64)
    ensures
        info.touched(then).is_stalled(now, stall_ms) <==> now > then + stall_ms,
        info.polled(then).is_stalled(now, stall_ms) <==> now > then + stall_ms,
{
}

/// A stalled task stays stalled until it makes progress, and is so for every smaller
/// threshold.
pub proof fn law_stalled_stays_stalled(
    info: TaskInfo,
    now: u64,
    later: u64,
    stall_ms: u64,
    smaller: u64,
)
    requires
        info.is_stalled(now, stall_ms),
        now <= later,
        smaller <= stall_ms,
    ensures
        info.is_stalled(later, smaller),
{
}

/// A task that has ended is not reported as stalled, whenever and with whatever
/// threshold the registry is sampled.
pub proof fn law_ended_task_is_not_reported(
    registry: RegistryView,
    id: TaskId,
    list: Seq<TaskInfo>,
    now: u64,
    stall_ms: u64,
)
    requires
        registry.deregister(id).stalled_listed_by(list, now, stall_ms),
    ensures
        forall|i: int| 0 <= i < list.len() ==> (#[trigger] list[i]).id != id,
{
}

/// A future that is polled for the first time and is ready at once, or after any number
/// of further polls, leaves no trace in the registry: the tasks are those before.
pub proof fn law_ready_future_leaves_no_task<F>(
    future: MonitorFuture<F>,
    registry: RegistryView,
    now: u64,
    later: Seq<u64>,
)
    requires
        future.task_id == 0,
        !registry.tasks.contains_key(registry.next),
    ensures
        polled_at(future.counted(registry, now), registry.next, later).deregister(
            registry.next,
        ).tasks == registry.tasks,
{
    let id = registry.next;
    let first = future.counted(registry, now);
    lemma_polls_keep_others(first, id, later);
    assert(polled_at(first, id, later).deregister(id).tasks =~= registry.tasks) by {
        assert(first.tasks.remove(id) =~= registry.tasks);
    }
}

/// A task that is registered already and is ready after any number of polls leaves the
/// registry: the tasks are those before without it.
pub proof fn law_ready_task_leaves(registry: RegistryView, id: TaskId, times: Seq<u64>)
    ensures
        polled_at(registry, id, times).deregister(id).tasks == registry.tasks.remove(id),
{
    lemma_polls_keep_others(registry, id, times);
}

/// A future with an assigned id whose info is not that of a registered task leaves the
/// registry alone when it is polled.
pub proof fn law_unregistered_info_counts_alone<F>(
    future: MonitorFuture<F>,
    registry: RegistryView,
    now: u64,
)
    requires
        future.task_id != 0,
        !registry.tasks.contains_key(future.info.id),
    ensures
        future.counted(registry, now) == registry,
{
}

/// The registry after polls of the task `id` at the given times.
pub open spec fn polled_at(registry: RegistryView, id: TaskId, times: Seq<u64>) -> RegistryView
    decreases times.len(),
{
    if times.len() == 0 {
        registry
    } else {
        polled_at(registry, id, times.drop_last()).poll(id, times.last())
    }
}

proof fn lemma_polls_keep_others(registry: RegistryView, id: TaskId, times: Seq<u64>)
    ensures
        polled_at(registry, id, times).tasks.remove(id) == registry.tasks.remove(id),
    decreases times.len(),
{
    if times.len() > 0 {
        lemma_polls_keep_others(registry, id, times.drop_last());
        let before = polled_at(registry, id, times.drop_last());
        assert(before.poll(id, times.last()).tasks.remove(id) =~= before.tasks.remove(id));
    }
}

/// The counters of a future and of its task in the registry stay in step: a poll counts
/// once in both.
pub proof fn law_counters_stay_in_step<F>(
    future: MonitorFuture<F>,
    registry: RegistryView,
    now: u64,
)
    requires
        future.task_id != 0 ==> {
            &&& registry.tasks.contains_key(future.info.id)
            &&& registry.tasks[future.info.id].polls == future.info.polls
        },
    ensures
        ({
            let info = future.enrolled_info(registry).polled(now);
            let task = future.counted(registry, now).tasks[info.id];
            &&& future.counted(registry, now).tasks.contains_key(info.id)
            &&& task.polls == info.polls
            &&& task.last_progress_ms == info.last_progress_ms
            &&& info.last_progress_ms == now
        }),
{
}

/// What maps to something is kept by `filter_map`.
proof fn lemma_filter_map_keeps<A, B>(s: Seq<A>, f: spec_fn(A) -> Option<B>, i: int)
    requires
        0 <= i < s.len(),
        f(s[i]) is Some,
    ensures
        s.filter_map(f).contains(f(s[i]).unwrap()),
    decreases s.len(),
{
    let rest = s.drop_last();
    if i == s.len() - 1 {
        let out = s.filter_map(f);
        assert(out == rest.filter_map(f) + seq![f(s.last()).unwrap()]);
        assert(out[rest.filter_map(f).len() as int] == f(s[i]).unwrap());
    } else {
        lemma_filter_map_keeps(rest, f, i);
        let sub = rest.filter_map(f);
        assert(rest[i] == s[i]);
        let k = choose|k: int| 0 <= k < sub.len() && sub[k] == f(s[i]).unwrap();
        assert(s.filter_map(f)[k] == sub[k]);
    }
}

/// The tasks reported with a cycle are those of its tasks that are registered, each once.
pub proof fn law_reported_tasks(registry: RegistryView, cycle: Seq<NodeView>)
    requires
        registry.wf(),
        cycle.no_duplicates(),
    ensures
        forall|i: int|
            0 <= i < registry.tasks_among(cycle).len() ==> {
                let info = #[trigger] registry.tasks_among(cycle)[i];
                &&& cycle.contains(NodeView::Task(info.id))
                &&& registry.tasks.contains_key(info.id)
                &&& registry.tasks[info.id] == info
            },
        forall|i: int, j: int|
            0 <= i < j < registry.tasks_among(cycle).len() ==> (
            #[trigger] registry.tasks_among(cycle)[i]).id != (
            #[trigger] registry.tasks_among(cycle)[j]).id,
        forall|id: TaskId|
            cycle.contains(NodeView::Task(id)) && #[trigger] registry.tasks.contains_key(id)
                ==> registry.tasks_among(cycle).contains(registry.tasks[id]),
    decreases cycle.len(),
{
    let f = |node: NodeView| registry.task_at(node);
    let all = registry.tasks_among(cycle);
    if cycle.len() > 0 {
        let rest = cycle.drop_last();
        law_reported_tasks(registry, rest);
        let sub = registry.tasks_among(rest);
        let last = cycle.last();
        assert forall|i: int| 0 <= i < all.len() implies {
            let info = #[trigger] all[i];
            &&& cycle.contains(NodeView::Task(info.id))
            &&& registry.tasks.contains_key(info.id)
            &&& registry.tasks[info.id] == info
        } by {
            if i < sub.len() {
                assert(all[i] == sub[i]);
                let k = choose|k: int|
                    0 <= k < rest.len() && rest[k] == NodeView::Task(sub[i].id);
                assert(cycle[k] == NodeView::Task(all[i].id));
            } else {
                assert(cycle[cycle.len() - 1] == NodeView::Task(all[i].id));
            }
        }
        assert forall|i: int, j: int| 0 <= i < j < all.len() implies (#[trigger] all[i]).id != (
        #[trigger] all[j]).id by {
            assert(all[i] == sub[i]);
            let k = choose|k: int| 0 <= k < rest.len() && rest[k] == NodeView::Task(sub[i].id);
            assert(cycle[k] == NodeView::Task(sub[i].id));
            if j < sub.len() {
                assert(all[j] == sub[j]);
            } else {
                assert(cycle[cycle.len() - 1] == NodeView::Task(all[j].id));
            }
        }
    }
    assert forall|id: TaskId|
        cycle.contains(NodeView::Task(id)) && #[trigger] registry.tasks.contains_key(
            id,
        ) implies all.contains(registry.tasks[id]) by {
        let i = choose|i: int| 0 <= i < cycle.len() && cycle[i] == NodeView::Task(id);
        lemma_filter_map_keeps(cycle, f, i);
    }
}

/// A report on a deadlock of registered tasks names some: where every edge of the graph
/// tells a fact and every task that waits is registered, every cycle has a registered task.
pub proof fn law_registered_deadlock_names_tasks(
    facts: LockFacts,
    graph: GraphView,
    registry: RegistryView,
    cycle: Seq<NodeView>,
)
    requires
        facts.back(graph),
        forall|task: u64, lock: Seq<char>| #[trigger]
            facts.waits.contains((task, lock)) ==> registry.tasks.contains_key(task),
        graph.is_closed_walk(cycle),
    ensures
        registry.tasks_among(cycle).len() > 0,
{
    crate::lock_laws::law_cycle_is_circular_wait(facts, graph, cycle);
    let (tasks, locks) = choose|tasks: Seq<u64>, locks: Seq<Seq<char>>| #[trigger]
        facts.circular_wait(tasks, locks) && forall|i: int|
            0 <= i < tasks.len() ==> cycle.contains(NodeView::Task(#[trigger] tasks[i]));
    assert(facts.waits.contains((tasks[0], locks[0])));
    let i = choose|i: int| 0 <= i < cycle.len() && cycle[i] == NodeView::Task(tasks[0]);
    lemma_filter_map_keeps(cycle, |node: NodeView| registry.task_at(node), i);
}

/// Touching sets the time of the last progress to the given time, and leaves every other
/// field as it was.
pub proof fn law_touched_fields(info: TaskInfo, now: u64)
    ensures
        info.touched(now).last_progress_ms == now,
        info.touched(now).id == info.id,
        info.touched(now).name == info.name,
        info.touched(now).polls == info.polls,
        info.touched(now).location == info.location,
        info.touched(now).is_blocking == info.is_blocking,
{
}

/// A poll raises the poll count by one, going round at 2^64, sets the time of the last
/// progress, and leaves every other field as it was.
pub proof fn law_polled_fields(info: TaskInfo, now: u64)
    ensures
        info.polled(now).polls == (info.polls + 1) % 0x1_0000_0000_0000_0000,
        info.polled(now).last_progress_ms == now,
        info.polled(now).id == info.id,
        info.polled(now).name == info.name,
        info.polled(now).location == info.location,
        info.polled(now).is_blocking == info.is_blocking,
{
}

/// Filling in the id leaves every other field as it was.
pub proof fn law_with_id_fields(info: TaskInfo, id: TaskId)
    ensures
        info.with_id(id).id == id,
        info.with_id(id).name == info.name,
        info.with_id(id).polls == info.polls,
        info.with_id(id).last_progress_ms == info.last_progress_ms,
        info.with_id(id).location == info.location,
        info.with_id(id).is_blocking == info.is_blocking,
{
}

/// A task is stalled exactly where more than the threshold has passed since its last
/// progress.
pub proof fn law_is_stalled(info: TaskInfo, now: u64, stall_ms: u64)
    ensures
        info.is_stalled(now, stall_ms) <==> now > info.last_progress_ms + stall_ms,
{
}

/// The info after polls at the given times.
pub open spec fn info_polled_at(info: TaskInfo, times: Seq<u64>) -> TaskInfo
    decreases times.len(),
{
    if times.len() == 0 {
        info
    } else {
        info_polled_at(info, times.drop_last()).polled(times.last())
    }
}

/// After any number of polls the info shows as many more, going round at 2^64, the time of
/// the last one, and is otherwise as it was.
pub proof fn law_every_poll_counts(info: TaskInfo, times: Seq<u64>)
    ensures
        info_polled_at(info, times).polls == (info.polls + times.len()) % 0x1_0000_0000_0000_0000,
        times.len() > 0 ==> info_polled_at(info, times).last_progress_ms == times.last(),
        info_polled_at(info, times).id == info.id,
        info_polled_at(info, times).name == info.name,
        info_polled_at(info, times).location == info.location,
        info_polled_at(info, times).is_blocking == info.is_blocking,
    decreases times.len(),
{
    if times.len() > 0 {
        law_every_poll_counts(info, times.drop_last());
        law_polled_fields(info_polled_at(info, times.drop_last()), times.last());
    }
}

/// After any number of polls of a registered task the registry shows as many more for it,
/// and every other task and the next id are as they were.
pub proof fn law_every_poll_counts_in_registry(
    registry: RegistryView,
    id: TaskId,
    times: Seq<u64>,
)
    requires
        registry.tasks.contains_key(id),
    ensures
        polled_at(registry, id, times).tasks.contains_key(id),
        polled_at(registry, id, times).tasks[id] == info_polled_at(registry.tasks[id], times),
        polled_at(registry, id, times).tasks[id].polls == (registry.tasks[id].polls + times.len())
            % 0x1_0000_0000_0000_0000,
        forall|other: TaskId|
            other != id ==> (#[trigger] polled_at(registry, id, times).tasks.contains_key(other)
                <==> registry.tasks.contains_key(other)) && polled_at(
                registry,
                id,
                times,
            ).tasks[other] == registry.tasks[other],
        polled_at(registry, id, times).next == registry.next,
    decreases times.len(),
{
    law_every_poll_counts(registry.tasks[id], times);
    if times.len() > 0 {
        law_every_poll_counts_in_registry(registry, id, times.drop_last());
    }
}

/// What a poll, a touch or a removal does to the registry, task by task: only the task meant
/// changes, and only if it is registered; the next id stays.
pub proof fn law_one_task_changes(registry: RegistryView, id: TaskId, now: u64, other: TaskId)
    ensures
        registry.poll(id, now).tasks.contains_key(other) <==> registry.tasks.contains_key(other),
        registry.touch(id, now).tasks.contains_key(other) <==> registry.tasks.contains_key(other),
        registry.deregister(id).tasks.contains_key(other) <==> registry.tasks.contains_key(other)
            && other != id,
        other != id ==> registry.poll(id, now).tasks[other] == registry.tasks[other],
        other != id ==> registry.touch(id, now).tasks[other] == registry.tasks[other],
        other != id ==> registry.deregister(id).tasks[other] == registry.tasks[other],
        registry.tasks.contains_key(id) ==> registry.poll(id, now).tasks[id]
            == registry.tasks[id].polled(now),
        registry.tasks.contains_key(id) ==> registry.touch(id, now).tasks[id]
            == registry.tasks[id].touched(now),
        registry.poll(id, now).next == registry.next,
        registry.touch(id, now).next == registry.next,
        registry.deregister(id).next == registry.next,
{
}

/// Something that happens to the registry.
pub enum RegistryEvent {
    /// a task with this info is registered at this time
    Register(TaskInfo, u64),
    /// the task makes progress at this time
    Touch(TaskId, u64),
    /// the task is polled at this time
    Poll(TaskId, u64),
    /// the task is removed
    Deregister(TaskId),
}

/// A new registry after the events.
pub open spec fn registry_after(events: Seq<RegistryEvent>) -> RegistryView
    decreases events.len(),
{
    if events.len() == 0 {
        RegistryView::empty()
    } else {
        let before = registry_after(events.drop_last());
        match events.last() {
            RegistryEvent::Register(info, now) => before.register(info, now),
            RegistryEvent::Touch(id, now) => before.touch(id, now),
            RegistryEvent::Poll(id, now) => before.poll(id, now),
            RegistryEvent::Deregister(id) => before.deregister(id),
        }
    }
}

/// How many registrations are among the events.
pub open spec fn registrations(events: Seq<RegistryEvent>) -> nat
    decreases events.len(),
{
    if events.len() == 0 {
        0
    } else {
        registrations(events.drop_last()) + if events.last() is Register {
            1nat
        } else {
            0nat
        }
    }
}

/// The k-th registration gets the id k, whatever else happened: with fewer than 2^64 - 1
/// registrations so far, the next id is their number plus one, and every registered task has
/// an id from 1 up to their number.
pub proof fn law_ids_count_registrations(events: Seq<RegistryEvent>)
    requires
        registrations(events) < u64::MAX,
    ensures
        registry_after(events).next == registrations(events) + 1,
        forall|id: TaskId| #[trigger]
            registry_after(events).tasks.contains_key(id) ==> 1 <= id <= registrations(events),
        registry_after(events).wf(),
    decreases events.len(),
{
    if events.len() > 0 {
        law_ids_count_registrations(events.drop_last());
    }
}

proof fn lemma_registrations_grow(events: Seq<RegistryEvent>, i: int)
    requires
        0 <= i <= events.len(),
    ensures
        registrations(events.take(i)) <= registrations(events),
        i < events.len() && events[i] is Register ==> registrations(events.take(i))
            < registrations(events),
    decreases events.len(),
{
    if i == events.len() {
        assert(events.take(i) =~= events);
    } else {
        let shorter = events.drop_last();
        lemma_registrations_grow(shorter, i);
        assert(shorter.take(i) =~= events.take(i));
        if i < shorter.len() {
            assert(shorter[i] == events[i]);
        }
    }
}

/// No id is given to two tasks, not even after the first has ended: of two registrations the
/// later one gets the greater id.
pub proof fn law_ids_are_given_once(events: Seq<RegistryEvent>, i: int, j: int)
    requires
        registrations(events) < u64::MAX,
        0 <= i < j < events.len(),
        events[i] is Register,
        events[j] is Register,
    ensures
        registry_after(events.take(i)).next < registry_after(events.take(j)).next,
{
    let until = events.take(j);
    lemma_registrations_grow(events, j);
    lemma_registrations_grow(until, i);
    assert(until.take(i) =~= events.take(i));
    assert(until[i] == events[i]);
    law_ids_count_registrations(until);
    law_ids_count_registrations(events.take(i));
}

/// How many of the events after position `k` are polls of the task `id`.
pub open spec fn polls_since(events: Seq<RegistryEvent>, k: int, id: TaskId) -> nat
    decreases events.len(),
{
    if events.len() <= k + 1 || k < 0 {
        0
    } else {
        polls_since(events.drop_last(), k, id) + match events.last() {
            RegistryEvent::Poll(polled, _) => if polled == id {
                1nat
            } else {
                0nat
            },
            _ => 0nat,
        }
    }
}

/// The time of the last poll or touch of the task `id` after position `k`, or `start` where
/// there is none.
pub open spec fn progress_since(
    events: Seq<RegistryEvent>,
    k: int,
    id: TaskId,
    start: u64,
) -> u64
    decreases events.len(),
{
    if events.len() <= k + 1 || k < 0 {
        start
    } else {
        let before = progress_since(events.drop_last(), k, id, start);
        match events.last() {
            RegistryEvent::Poll(polled, now) => if polled == id {
                now
            } else {
                before
            },
            RegistryEvent::Touch(touched, now) => if touched == id {
                now
            } else {
                before
            },
            _ => before,
        }
    }
}

/// A registered task is found, until it is removed, under its own id with the name, call
/// site and kind it was registered with, as many more polls as were made of it, and the time
/// of its last progress; once it is removed it is not found any more.
pub proof fn law_a_task_from_start_to_end(
    events: Seq<RegistryEvent>,
    k: int,
    info: TaskInfo,
    start: u64,
)
    requires
        registrations(events) < u64::MAX,
        0 <= k < events.len(),
        events[k] == RegistryEvent::Register(info, start),
    ensures
        ({
            let id = registry_after(events.take(k)).next;
            let removed = exists|j: int|
                k < j < events.len() && #[trigger] events[j] == RegistryEvent::Deregister(id);
            let task = registry_after(events).tasks[id];
            &&& registry_after(events).tasks.contains_key(id) <==> !removed
            &&& !removed ==> {
                &&& task.id == id
                &&& task.name == info.name
                &&& task.location == info.location
                &&& task.is_blocking == info.is_blocking
                &&& task.polls == (info.polls + polls_since(events, k, id))
                    % 0x1_0000_0000_0000_0000
                &&& task.last_progress_ms == progress_since(events, k, id, start)
            }
        }),
    decreases events.len(),
{
    let id = registry_after(events.take(k)).next;
    let shorter = events.drop_last();
    let last = events.len() - 1;
    if k == last {
        assert(events.take(k) =~= shorter);
    } else {
        assert(shorter.take(k) =~= events.take(k));
        assert(shorter[k] == events[k]);
        law_a_task_from_start_to_end(shorter, k, info, start);
        lemma_registrations_grow(shorter, k);
        lemma_registrations_grow(events, last);
        assert(events.take(last) =~= shorter);
        law_ids_count_registrations(shorter);
        law_ids_count_registrations(events.take(k));
        assert(registry_after(shorter).next > id);
        let was = exists|j: int|
            k < j < shorter.len() && #[trigger] shorter[j] == RegistryEvent::Deregister(id);
        let is = exists|j: int|
            k < j < events.len() && #[trigger] events[j] == RegistryEvent::Deregister(id);
        if was {
            let j = choose|j: int|
                k < j < shorter.len() && #[trigger] shorter[j] == RegistryEvent::Deregister(id);
            assert(events[j] == RegistryEvent::Deregister(id));
        }
        if is && events[last] != RegistryEvent::Deregister(id) {
            let j = choose|j: int|
                k < j < events.len() && #[trigger] events[j] == RegistryEvent::Deregister(id);
            assert(shorter[j] == RegistryEvent::Deregister(id));
        }
        if !was {
            law_polled_fields(registry_after(shorter).tasks[id], 0);
        }
    }
}

/// What polling a future does to the registry. One without an id is registered under the
/// next id with its first poll counted; with one, the task of its info counts a poll where
/// it is registered. Nothing else changes.
pub proof fn law_polling_a_future<F>(
    future: MonitorFuture<F>,
    registry: RegistryView,
    now: u64,
    other: TaskId,
)
    ensures
        future.task_id == 0 ==> {
            let after = future.counted(registry, now);
            let task = after.tasks[registry.next];
            &&& future.enrolled_id(registry) == registry.next
            &&& after.next == (registry.next + 1) % 0x1_0000_0000_0000_0000
            &&& after.tasks.contains_key(registry.next)
            &&& task.id == registry.next
            &&& task.name == future.info.name
            &&& task.location == future.info.location
            &&& task.is_blocking == future.info.is_blocking
            &&& task.polls == (future.info.polls + 1) % 0x1_0000_0000_0000_0000
            &&& task.last_progress_ms == now
            &&& other != registry.next ==> (after.tasks.contains_key(other)
                <==> registry.tasks.contains_key(other)) && after.tasks[other]
                == registry.tasks[other]
        },
        future.task_id != 0 ==> {
            let after = future.counted(registry, now);
            &&& future.enrolled_id(registry) == future.task_id
            &&& after.next == registry.next
            &&& after.tasks.contains_key(other) <==> registry.tasks.contains_key(other)
            &&& other != future.info.id ==> after.tasks[other] == registry.tasks[other]
            &&& registry.tasks.contains_key(future.info.id) ==> {
                let task = after.tasks[future.info.id];
                let was = registry.tasks[future.info.id];
                &&& task.id == was.id
                &&& task.name == was.name
                &&& task.location == was.location
                &&& task.is_blocking == was.is_blocking
                &&& task.polls == (was.polls + 1) % 0x1_0000_0000_0000_0000
                &&& task.last_progress_ms == now
            }
        },
{
}

/// A snapshot has as many infos as there are tasks, and an info is in it exactly where it is
/// that of a registered task.
pub proof fn law_snapshot(registry: RegistryView, list: Seq<TaskInfo>, info: TaskInfo)
    requires
        registry.wf(),
        registry.is_listed_by(list),
    ensures
        list.len() == registry.tasks.dom().len(),
        list.no_duplicates(),
        list.contains(info) <==> registry.tasks.contains_key(info.id) && registry.tasks[info.id]
            == info,
{
    assert forall|i: int, j: int|
        0 <= i < list.len() && 0 <= j < list.len() && i != j implies list[i] != list[j] by {
        if i < j {
            assert(list[i].id != list[j].id);
        } else {
            assert(list[j].id != list[i].id);
        }
    }
}

/// A stall report holds an info exactly where it is that of a registered task whose last
/// progress is more than the threshold ago, and no info twice.
pub proof fn law_stall_report(
    registry: RegistryView,
    list: Seq<TaskInfo>,
    now: u64,
    stall_ms: u64,
    info: TaskInfo,
)
    requires
        registry.wf(),
        registry.stalled_listed_by(list, now, stall_ms),
    ensures
        list.no_duplicates(),
        list.contains(info) <==> registry.tasks.contains_key(info.id) && registry.tasks[info.id]
            == info && now > info.last_progress_ms + stall_ms,
{
    assert forall|i: int, j: int|
        0 <= i < list.len() && 0 <= j < list.len() && i != j implies list[i] != list[j] by {
        if i < j {
            assert(list[i].id != list[j].id);
        } else {
            assert(list[j].id != list[i].id);
        }
    }
}

/// The tasks reported for some nodes and then more are those of the first, then those of the
/// others; a node gives the registered task of its id, and a lock none.
pub proof fn law_reported_tasks_in_order(
    registry: RegistryView,
    first: Seq<NodeView>,
    rest: Seq<NodeView>,
    id: TaskId,
    lock: Seq<char>,
)
    ensures
        registry.tasks_among(first + rest) == registry.tasks_among(first)
            + registry.tasks_among(rest),
        registry.tasks_among(seq![NodeView::Task(id)]) == if registry.tasks.contains_key(id) {
            seq![registry.tasks[id]]
        } else {
            seq![]
        },
        registry.tasks_among(seq![NodeView::Lock(lock)]).len() == 0,
        registry.tasks_among(seq![]).len() == 0,
{
    let f = |node: NodeView| registry.task_at(node);
    lemma_filter_map_concat(first, rest, f);
    let task = seq![NodeView::Task(id)];
    let held = seq![NodeView::Lock(lock)];
    reveal_with_fuel(Seq::filter_map, 2);
    assert(task.drop_last() =~= seq![]);
    assert(held.drop_last() =~= seq![]);
    assert(registry.tasks_among(task) =~= if registry.tasks.contains_key(id) {
        seq![registry.tasks[id]]
    } else {
        seq![]
    });
}

proof fn lemma_filter_map_concat<A, B>(a: Seq<A>, b: Seq<A>, f: spec_fn(A) -> Option<B>)
    ensures
        (a + b).filter_map(f) == a.filter_map(f) + b.filter_map(f),
    decreases b.len(),
{
    if b.len() == 0 {
        assert(a + b =~= a);
    } else {
        lemma_filter_map_concat(a, b.drop_last(), f);
        assert((a + b).drop_last() =~= a + b.drop_last());
        assert((a + b).last() == b.last());
    }
    assert((a + b).filter_map(f) =~= a.filter_map(f) + b.filter_map(f));
}

} // verus!
