//! The registry of monitored tasks.

use crate::clock::now_millis;
use crate::text::format_location;
use std::collections::HashMap;
use vstd::prelude::*;

verus! {

broadcast use vstd::std_specs::hash::group_hash_axioms;

/// Unique task id type.
pub type TaskId = u64;

/// Task information stored in registry.
///
/// A copy stands still: it does not follow what is recorded of the task later.
#[derive(Debug)]
pub struct TaskInfo {
    /// the task that this is the info of, 0 while it is not registered
    pub id: TaskId,
    pub name: String,
    /// how often the task was polled (wraps around)
    pub polls: u64,
    /// last time polled/completed/updated (ms)
    pub last_progress_ms: u64,
    /// call-site location (file:line:col)
    pub location: Option<String>,
    /// whether it's a blocking/spawn_blocking task
    pub is_blocking: bool,
}

impl Clone for TaskInfo {
    fn clone(&self) -> (copy: Self)
        ensures
            copy == *self,
    {
        TaskInfo {
            id: self.id,
            name: self.name.clone(),
            polls: self.polls,
            last_progress_ms: self.last_progress_ms,
            location: match &self.location {
                Some(location) => Some(location.clone()),
                None => None,
            },
            is_blocking: self.is_blocking,
        }
    }
}

impl TaskInfo {
    /// The info with progress made at `now`.
    pub open spec fn touched(self, now: u64) -> TaskInfo {
        TaskInfo { last_progress_ms: now, ..self }
    }

    /// The info with one more poll, made at `now`.
    pub open spec fn polled(self, now: u64) -> TaskInfo {
        TaskInfo { polls: wrapping_next(self.polls), last_progress_ms: now, ..self }
    }

    /// The info under the id `id`.
    pub open spec fn with_id(self, id: TaskId) -> TaskInfo {
        TaskInfo { id, ..self }
    }

    /// No progress for more than `stall_ms` at the time `now`.
    pub open spec fn is_stalled(self, now: u64, stall_ms: u64) -> bool {
        now - self.last_progress_ms > stall_ms
    }

    /// Records progress at the time `now`.
    pub fn touch_at(&mut self, now: u64)
        ensures
            *final(self) == old(self).touched(now),
            final(self).last_progress_ms == now,
            final(self).id == old(self).id,
            final(self).name == old(self).name,
            final(self).polls == old(self).polls,
            final(self).location == old(self).location,
            final(self).is_blocking == old(self).is_blocking,
    {
        self.last_progress_ms = now;
    }

    /// Records progress at the present time.
    pub fn touch(&mut self)
        ensures
            exists|now: u64|
                call_ensures(now_millis, (), now) && *final(self) == #[trigger] old(self).touched(
                    now,
                ),
    {
        self.touch_at(now_millis());
    }

    /// Records a poll at the time `now`.
    pub fn record_poll(&mut self, now: u64)
        ensures
            *final(self) == old(self).polled(now),
            final(self).polls == (old(self).polls + 1) % 0x1_0000_0000_0000_0000,
            final(self).last_progress_ms == now,
            final(self).id == old(self).id,
            final(self).name == old(self).name,
            final(self).location == old(self).location,
            final(self).is_blocking == old(self).is_blocking,
    {
        self.polls = self.polls.wrapping_add(1);
        self.touch_at(now);
    }

    /// The info of a task of which nothing is known, made at the time `now`.
    pub fn unknown_at(now: u64) -> (info: TaskInfo)
        ensures
            info.id == 0,
            info.name@ == "<unknown>"@,
            info.polls == 0,
            info.last_progress_ms == now,
            info.location is None,
            !info.is_blocking,
    {
        TaskInfo {
            id: 0,
            name: "<unknown>".to_string(),
            polls: 0,
            last_progress_ms: now,
            location: None,
            is_blocking: false,
        }
    }
}

impl Default for TaskInfo {
    fn default() -> (info: Self)
        ensures
            info.id == 0,
            info.name@ == "<unknown>"@,
            info.polls == 0,
            call_ensures(now_millis, (), info.last_progress_ms),
            info.location is None,
            !info.is_blocking,
    {
        TaskInfo::unknown_at(now_millis())
    }
}

/// The number after `n`, going round from the last to 0.
pub open spec fn wrapping_next(n: u64) -> u64 {
    if n == u64::MAX {
        0
    } else {
        (n + 1) as u64
    }
}

/// The registered tasks, and the id that the next one gets.
#[verifier::ext_equal]
pub struct RegistryView {
    pub tasks: Map<TaskId, TaskInfo>,
    pub next: TaskId,
}

impl RegistryView {
    /// No task; ids start at 1.
    pub open spec fn empty() -> RegistryView {
        RegistryView { tasks: Map::empty(), next: 1 }
    }

    /// Every task carries the id it is registered under.
    pub open spec fn wf(self) -> bool {
        &&& self.tasks.dom().finite()
        &&& forall|id: TaskId| #[trigger]
            self.tasks.contains_key(id) ==> self.tasks[id].id == id
    }

    /// `info` is registered under the next id, with progress made at `now`.
    pub open spec fn register(self, info: TaskInfo, now: u64) -> RegistryView {
        RegistryView {
            tasks: self.tasks.insert(self.next, info.with_id(self.next).touched(now)),
            next: wrapping_next(self.next),
        }
    }

    /// The task `id`, if it is registered, made progress at `now`.
    pub open spec fn touch(self, id: TaskId, now: u64) -> RegistryView {
        if self.tasks.contains_key(id) {
            RegistryView { tasks: self.tasks.insert(id, self.tasks[id].touched(now)), ..self }
        } else {
            self
        }
    }

    /// The task `id`, if it is registered, was polled at `now`.
    pub open spec fn poll(self, id: TaskId, now: u64) -> RegistryView {
        if self.tasks.contains_key(id) {
            RegistryView { tasks: self.tasks.insert(id, self.tasks[id].polled(now)), ..self }
        } else {
            self
        }
    }

    /// The task `id` is not registered any more.
    pub open spec fn deregister(self, id: TaskId) -> RegistryView {
        RegistryView { tasks: self.tasks.remove(id), ..self }
    }

    /// `list` holds every registered task once.
    pub open spec fn is_listed_by(self, list: Seq<TaskInfo>) -> bool {
        &&& list.len() == self.tasks.dom().len()
        &&& forall|i: int|
            0 <= i < list.len() ==> self.tasks.contains_key((#[trigger] list[i]).id)
                && self.tasks[list[i].id] == list[i]
        &&& forall|i: int, j: int|
            0 <= i < j < list.len() ==> (#[trigger] list[i]).id != (#[trigger] list[j]).id
        &&& forall|id: TaskId| #[trigger]
            self.tasks.contains_key(id) ==> list.contains(self.tasks[id])
    }
}

/// Registry of the monitored tasks.
#[derive(Debug)]
pub struct TaskRegistry {
    tasks: HashMap<TaskId, TaskInfo>,
    next: TaskId,
}

impl View for TaskRegistry {
    type V = RegistryView;

    closed spec fn view(&self) -> RegistryView {
        RegistryView { tasks: self.tasks@, next: self.next }
    }
}

impl TaskRegistry {
    #[verifier::type_invariant]
    spec fn inv(self) -> bool {
        self@.wf()
    }

    /// A registry of no tasks.
    pub fn new() -> (registry: Self)
        ensures
            registry@ == RegistryView::empty(),
    {
        TaskRegistry { tasks: HashMap::new(), next: 1 }
    }

    /// Register a TaskInfo (on spawn) at the time `now`. Returns assigned TaskId.
    pub fn register_at(&mut self, info: TaskInfo, now: u64) -> (id: TaskId)
        ensures
            id == old(self)@.next,
            final(self)@ == old(self)@.register(info, now),
            final(self)@.next == (old(self)@.next + 1) % 0x1_0000_0000_0000_0000,
    {
        proof {
            use_type_invariant(&*self);
        }
        let mut tasks: HashMap<TaskId, TaskInfo> = HashMap::new();
        std::mem::swap(&mut tasks, &mut self.tasks);
        let id = self.next;
        let mut info = info;
        info.id = id;
        info.touch_at(now);
        tasks.insert(id, info);
        self.next = id.wrapping_add(1);
        self.tasks = tasks;
        id
    }

    /// Register a TaskInfo (on spawn). Returns assigned TaskId.
    pub fn register(&mut self, info: TaskInfo) -> (id: TaskId)
        ensures
            id == old(self)@.next,
            exists|now: u64|
                call_ensures(now_millis, (), now) && final(self)@ == #[trigger] old(
                    self,
                )@.register(info, now),
    {
        self.register_at(info, now_millis())
    }

    /// Update last_progress timestamp for a task to `now`.
    pub fn touch_at(&mut self, id: TaskId, now: u64)
        ensures
            final(self)@ == old(self)@.touch(id, now),
    {
        proof {
            use_type_invariant(&*self);
        }
        let mut tasks: HashMap<TaskId, TaskInfo> = HashMap::new();
        std::mem::swap(&mut tasks, &mut self.tasks);
        if let Some(mut info) = tasks.remove(&id) {
            info.touch_at(now);
            tasks.insert(id, info);
        }
        assert(tasks@ =~= old(self)@.touch(id, now).tasks);
        self.tasks = tasks;
    }

    /// Update last_progress timestamp for a task.
    pub fn touch(&mut self, id: TaskId)
        ensures
            exists|now: u64|
                call_ensures(now_millis, (), now) && final(self)@ == #[trigger] old(self)@.touch(
                    id,
                    now,
                ),
    {
        self.touch_at(id, now_millis());
    }

    /// Count a poll of a task at the time `now`.
    pub fn record_poll(&mut self, id: TaskId, now: u64)
        ensures
            final(self)@ == old(self)@.poll(id, now),
    {
        proof {
            use_type_invariant(&*self);
        }
        let mut tasks: HashMap<TaskId, TaskInfo> = HashMap::new();
        std::mem::swap(&mut tasks, &mut self.tasks);
        if let Some(mut info) = tasks.remove(&id) {
            info.record_poll(now);
            tasks.insert(id, info);
        }
        assert(tasks@ =~= old(self)@.poll(id, now).tasks);
        self.tasks = tasks;
    }

    /// Remove the task from the registry.
    pub fn deregister(&mut self, id: TaskId)
        ensures
            final(self)@ == old(self)@.deregister(id),
            final(self)@.tasks == old(self)@.tasks.remove(id),
            final(self)@.next == old(self)@.next,
    {
        proof {
            use_type_invariant(&*self);
        }
        let mut tasks: HashMap<TaskId, TaskInfo> = HashMap::new();
        std::mem::swap(&mut tasks, &mut self.tasks);
        tasks.remove(&id);
        self.tasks = tasks;
    }

    /// The task has ended at the time `now`: marks progress, then removes it from the
    /// registry.
    pub fn complete(&mut self, id: TaskId, now: u64)
        ensures
            final(self)@ == old(self)@.deregister(id),
    {
        self.touch_at(id, now);
        self.deregister(id);
        assert(self@.tasks =~= old(self)@.deregister(id).tasks);
    }

    /// Snapshot of current TaskInfo entries (cloned), in no particular order; for
    /// watchers and tests.
    pub fn snapshot(&self) -> (list: Vec<TaskInfo>)
        ensures
            self@.wf(),
            self@.is_listed_by(list@),
    {
        proof {
            use_type_invariant(self);
        }
        let mut list: Vec<TaskInfo> = Vec::new();
        let entries = self.tasks.iter();
        let ghost pairs = vstd::std_specs::iter::IteratorSpec::remaining(&entries);
        for entry in walk: entries
            invariant
                walk.seq() == pairs,
                list@.len() == walk.index(),
                forall|i: int| 0 <= i < list@.len() ==> #[trigger] list@[i] == *pairs[i].1,
        {
            list.push(entry.1.clone());
        }
        proof {
            assert forall|i: int| 0 <= i < list@.len() implies self@.tasks.contains_key(
                (#[trigger] list@[i]).id,
            ) && self@.tasks[list@[i].id] == list@[i] && list@[i].id == *pairs[i].0 by {
                assert(self.tasks@.contains_key(*pairs[i].0));
            }
            assert forall|i: int, j: int| 0 <= i < j < list@.len() implies (
            #[trigger] list@[i]).id != (#[trigger] list@[j]).id by {
                if list@[i].id == list@[j].id {
                    assert(pairs[i].0 == pairs[j].0);
                    assert(pairs[i].1 == pairs[j].1);
                    assert(pairs[i] == pairs[j]);
                }
            }
            assert forall|id: TaskId| #[trigger]
                self@.tasks.contains_key(id) implies list@.contains(self@.tasks[id]) by {
                let i = choose|i: int|
                    0 <= i < pairs.len() && pairs[i] == (&id, &self.tasks@[id]);
                assert(list@[i] == self.tasks@[id]);
            }
        }
        list
    }

    /// Find a TaskInfo by id.
    pub fn get(&self, id: TaskId) -> (info: Option<TaskInfo>)
        ensures
            self@.wf(),
            info == if self@.tasks.contains_key(id) {
                Some(self@.tasks[id])
            } else {
                None
            },
    {
        proof {
            use_type_invariant(self);
        }
        match self.tasks.get(&id) {
            Some(info) => Some(info.clone()),
            None => None,
        }
    }
}

/// A task that is watched while it is polled: counts polls and records progress.
#[derive(Debug)]
pub struct MonitorFuture<F> {
    pub inner: F,
    pub task_id: TaskId,
    pub info: TaskInfo,
}

impl<F> MonitorFuture<F> {
    /// Construct with the task_id already assigned; with a task_id of 0 the task is
    /// registered when it is first polled.
    ///
    /// Polls are counted in `info`, and in the registry where `info` is that of a
    /// registered task.
    pub fn new(inner: F, task_id: TaskId, info: TaskInfo) -> (future: Self)
        ensures
            future.inner == inner,
            future.task_id == task_id,
            future.info == info,
    {
        MonitorFuture { inner, task_id, info }
    }

    /// The registry in which this future is registered.
    pub open spec fn enrolled(self, registry: RegistryView, now: u64) -> RegistryView {
        if self.task_id == 0 {
            registry.register(self.info, now)
        } else {
            registry
        }
    }

    /// The task id that this future is polled under.
    pub open spec fn enrolled_id(self, registry: RegistryView) -> TaskId {
        if self.task_id == 0 {
            registry.next
        } else {
            self.task_id
        }
    }

    /// The info that a poll of this future is counted in.
    pub open spec fn enrolled_info(self, registry: RegistryView) -> TaskInfo {
        if self.task_id == 0 {
            self.info.with_id(registry.next)
        } else {
            self.info
        }
    }

    /// The registry once a poll of this future is counted.
    pub open spec fn counted(self, registry: RegistryView, now: u64) -> RegistryView {
        self.enrolled(registry, now).poll(self.enrolled_info(registry).id, now)
    }

    /// What is recorded before the future is polled: registers the task if it is not
    /// yet registered, and counts the poll. Returns the id of the task that is now
    /// the current one.
    pub fn begin_poll(&mut self, registry: &mut TaskRegistry, now: u64) -> (current: TaskId)
        ensures
            current == old(self).enrolled_id(old(registry)@),
            final(registry)@ == old(self).counted(old(registry)@, now),
            final(self).inner == old(self).inner,
            final(self).task_id == current,
            final(self).info == old(self).enrolled_info(old(registry)@).polled(now),
            final(self).info.polls == (old(self).info.polls + 1) % 0x1_0000_0000_0000_0000,
            final(self).info.last_progress_ms == now,
            final(self).info.name == old(self).info.name,
            final(self).info.location == old(self).info.location,
            final(self).info.is_blocking == old(self).info.is_blocking,
    {
        if self.task_id == 0 {
            let id = registry.register_at(self.info.clone(), now);
            self.task_id = id;
            self.info.id = id;
        }
        self.info.record_poll(now);
        registry.record_poll(self.info.id, now);
        self.task_id
    }

    /// What is recorded once the future was polled: a task that is ready has made
    /// progress and leaves the registry, so that no watchdog sees it later.
    pub fn finish_poll(&self, registry: &mut TaskRegistry, ready: bool, now: u64)
        ensures
            final(registry)@ == if ready {
                old(registry)@.deregister(self.task_id)
            } else {
                old(registry)@
            },
    {
        if ready {
            registry.complete(self.task_id, now);
        }
    }
}

/// The info of a task that is being spawned.
fn spawn_info(
    name: String,
    file: &str,
    line: u32,
    column: u32,
    is_blocking: bool,
    now: u64,
) -> (info: TaskInfo)
    ensures
        info.id == 0,
        info.name == name,
        info.polls == 0,
        info.last_progress_ms == now,
        info.location matches Some(text) && text@ == crate::text::location_text(
            file@,
            line,
            column,
        ),
        info.is_blocking == is_blocking,
{
    TaskInfo {
        id: 0,
        name,
        polls: 0,
        last_progress_ms: now,
        location: Some(format_location(file, line, column)),
        is_blocking,
    }
}

/// Registers an async task that is being spawned from `file:line:column`, and gives
/// the future to spawn.
///
/// `name`: human-friendly identification.
pub fn spawn_monitored<F>(
    registry: &mut TaskRegistry,
    name: String,
    file: &str,
    line: u32,
    column: u32,
    fut: F,
    now: u64,
) -> (future: MonitorFuture<F>)
    ensures
        future.inner == fut,
        future.task_id == old(registry)@.next,
        future.info.id == old(registry)@.next,
        future.info.name == name,
        future.info.polls == 0,
        future.info.last_progress_ms == now,
        future.info.location matches Some(text) && text@ == crate::text::location_text(
            file@,
            line,
            column,
        ),
        !future.info.is_blocking,
        final(registry)@ == old(registry)@.register(future.info, now),
{
    let mut info = spawn_info(name, file, line, column, false, now);
    // Register immediately and get an id
    let id = registry.register_at(info.clone(), now);
    // ensure the info has id for MonitorFuture as well
    info.id = id;
    MonitorFuture::new(fut, id, info)
}

/// Registers a blocking task that is being spawned from `file:line:column`, and gives
/// its id. The task is to `touch` the registry when it starts and to `complete` when
/// it ends.
pub fn spawn_blocking_monitored(
    registry: &mut TaskRegistry,
    name: String,
    file: &str,
    line: u32,
    column: u32,
    now: u64,
) -> (id: TaskId)
    ensures
        id == old(registry)@.next,
        exists|info: TaskInfo|
            {
                &&& info.id == id
                &&& info.name == name
                &&& info.polls == 0
                &&& info.last_progress_ms == now
                &&& info.location matches Some(text) && text@ == crate::text::location_text(
                    file@,
                    line,
                    column,
                )
                &&& info.is_blocking
                &&& final(registry)@ == #[trigger] old(registry)@.register(info, now)
            },
{
    let info = spawn_info(name, file, line, column, true, now);
    let ghost registered = info.with_id(registry@.next);
    let id = registry.register_at(info, now);
    assert(registry@ == old(registry)@.register(registered, now));
    id
}

/// The tasks of `snap` that have made no progress for more than `stall_ms`.
pub fn stalled_tasks(snap: Vec<TaskInfo>, now: u64, stall_ms: u64) -> (stalled: Vec<TaskInfo>)
    ensures
        stalled@ == snap@.filter(|info: TaskInfo| info.is_stalled(now, stall_ms)),
{
    let ghost keep = |info: TaskInfo| info.is_stalled(now, stall_ms);
    let mut stalled: Vec<TaskInfo> = Vec::new();
    let mut i: usize = 0;
    assert(snap@.take(0).filter(keep) =~= Seq::empty()) by {
        reveal(Seq::filter);
    }
    while i < snap.len()
        invariant
            i <= snap@.len(),
            keep == (|info: TaskInfo| info.is_stalled(now, stall_ms)),
            stalled@ == snap@.take(i as int).filter(keep),
        decreases snap@.len() - i,
    {
        if now.saturating_sub(snap[i].last_progress_ms) > stall_ms {
            stalled.push(snap[i].clone());
        }
        assert(snap@.take(i + 1).drop_last() =~= snap@.take(i as int));
        assert(stalled@ == snap@.take(i + 1).filter(keep)) by {
            reveal(Seq::filter);
        }
        i = i + 1;
    }
    assert(snap@.take(i as int) =~= snap@);
    stalled
}

/// What a stall watchdog has to report at the time `now`: the registered tasks that have
/// made no progress for more than `stall_ms`, in no particular order, or `None` where
/// there are none.
pub fn stall_report(registry: &TaskRegistry, now: u64, stall_ms: u64) -> (report: Option<
    Vec<TaskInfo>,
>)
    ensures
        report is Some <==> exists|id: TaskId| #[trigger]
            registry@.tasks.contains_key(id) && registry@.tasks[id].is_stalled(now, stall_ms),
        report matches Some(list) ==> registry@.stalled_listed_by(list@, now, stall_ms),
{
    let snap = registry.snapshot();
    let ghost list = snap@;
    let stalled = stalled_tasks(snap, now, stall_ms);
    proof {
        lemma_stalled_listed(registry@, list, now, stall_ms);
    }
    if stalled.len() > 0 {
        assert(registry@.tasks.contains_key(stalled@[0].id));
        Some(stalled)
    } else {
        None
    }
}

impl RegistryView {
    /// `list` holds every registered task that is stalled at `now` once, and no other.
    pub open spec fn stalled_listed_by(
        self,
        list: Seq<TaskInfo>,
        now: u64,
        stall_ms: u64,
    ) -> bool {
        &&& forall|i: int|
            0 <= i < list.len() ==> {
                &&& self.tasks.contains_key((#[trigger] list[i]).id)
                &&& self.tasks[list[i].id] == list[i]
                &&& list[i].is_stalled(now, stall_ms)
            }
        &&& forall|i: int, j: int|
            0 <= i < j < list.len() ==> (#[trigger] list[i]).id != (#[trigger] list[j]).id
        &&& forall|id: TaskId| #[trigger]
            self.tasks.contains_key(id) && self.tasks[id].is_stalled(now, stall_ms)
                ==> list.contains(self.tasks[id])
    }
}

proof fn lemma_stalled_listed(
    registry: RegistryView,
    list: Seq<TaskInfo>,
    now: u64,
    stall_ms: u64,
)
    requires
        registry.is_listed_by(list),
    ensures
        registry.stalled_listed_by(
            list.filter(|info: TaskInfo| info.is_stalled(now, stall_ms)),
            now,
            stall_ms,
        ),
{
    let keep = |info: TaskInfo| info.is_stalled(now, stall_ms);
    lemma_filter_distinct(list, keep);
    let kept = list.filter(keep);
    assert forall|i: int| 0 <= i < kept.len() implies {
        &&& registry.tasks.contains_key((#[trigger] kept[i]).id)
        &&& registry.tasks[kept[i].id] == kept[i]
        &&& kept[i].is_stalled(now, stall_ms)
    } by {
        list.lemma_filter_pred(keep, i);
        assert(list.contains(kept[i]));
    }
    assert forall|id: TaskId| #[trigger]
        registry.tasks.contains_key(id) && registry.tasks[id].is_stalled(
            now,
            stall_ms,
        ) implies kept.contains(registry.tasks[id]) by {
        let i = choose|i: int| 0 <= i < list.len() && list[i] == registry.tasks[id];
        list.lemma_filter_contains(keep, i);
    }
}

/// Filtering keeps elements only, and keeps their ids distinct.
proof fn lemma_filter_distinct(list: Seq<TaskInfo>, keep: spec_fn(TaskInfo) -> bool)
    requires
        forall|i: int, j: int|
            0 <= i < j < list.len() ==> (#[trigger] list[i]).id != (#[trigger] list[j]).id,
    ensures
        forall|i: int|
            0 <= i < list.filter(keep).len() ==> list.contains(#[trigger] list.filter(keep)[i]),
        forall|i: int, j: int|
            0 <= i < j < list.filter(keep).len() ==> (#[trigger] list.filter(keep)[i]).id != (
            #[trigger] list.filter(keep)[j]).id,
    decreases list.len(),
{
    reveal(Seq::filter);
    if list.len() > 0 {
        let shorter = list.drop_last();
        lemma_filter_distinct(shorter, keep);
        let sub = shorter.filter(keep);
        let kept = list.filter(keep);
        assert forall|i: int| 0 <= i < kept.len() implies list.contains(#[trigger] kept[i]) by {
            if i < sub.len() {
                assert(kept[i] == sub[i]);
                let k = choose|k: int| 0 <= k < shorter.len() && shorter[k] == sub[i];
                assert(list[k] == kept[i]);
            } else {
                assert(list[list.len() - 1] == kept[i]);
            }
        }
        assert forall|i: int, j: int| 0 <= i < j < kept.len() implies (#[trigger] kept[i]).id != (
        #[trigger] kept[j]).id by {
            assert(kept[i] == sub[i]);
            let k = choose|k: int| 0 <= k < shorter.len() && shorter[k] == sub[i];
            assert(list[k] == kept[i]);
            if j < sub.len() {
                assert(kept[j] == sub[j]);
            } else {
                assert(kept[j] == list[list.len() - 1]);
            }
        }
    }
}

} // verus!
