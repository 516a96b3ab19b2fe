//! What a monitored mutex tells the wait-for graph.

use crate::graph::{Node, TaskId, WaitForGraph};
use crate::model::{GraphView, NodeView};
use std::sync::Arc;
use tokio::sync::{Mutex as TokioMutex, OwnedMutexGuard};
use vstd::prelude::*;

verus! {

/// The mutex of tokio, with whatever it holds left open.
#[verifier::external_type_specification]
#[verifier::external_body]
#[verifier::reject_recursive_types(T)]
pub struct ExTokioMutex<T: ?Sized>(tokio::sync::Mutex<T>);

/// The guard of a tokio mutex that is held through an `Arc`.
#[verifier::external_type_specification]
#[verifier::external_body]
#[verifier::reject_recursive_types(T)]
pub struct ExOwnedMutexGuard<T: ?Sized>(tokio::sync::OwnedMutexGuard<T>);

/// A small wrapper around tokio::sync::Mutex that reports wait/ownership to the graph
/// under its name.
#[derive(Debug)]
#[verifier::reject_recursive_types(T)]
pub struct MonitoredMutex<T> {
    pub inner: Arc<TokioMutex<T>>,
    pub name: String,
}

/// A held monitored mutex: the guard of the mutex itself, the name of the mutex, and the
/// task that holds it.
#[derive(Debug)]
#[verifier::reject_recursive_types(T)]
pub struct MonitoredMutexGuard<T> {
    pub inner: OwnedMutexGuard<T>,
    pub name: String,
    pub owner: TaskId,
}

impl<T> Clone for MonitoredMutex<T> {
    fn clone(&self) -> (copy: Self)
        ensures
            copy == *self,
    {
        MonitoredMutex { inner: self.inner.clone(), name: self.name.clone() }
    }
}

/// Tries to get the mutex, without waiting, with a guard that keeps the mutex alive.
///
/// Calls `tokio::sync::Mutex::try_lock_owned`, which gives no guard where the mutex is
/// held somewhere else. Whether it is depends on the other tasks and is left open; that
/// the guard is one of this very mutex is not stated.
#[verifier::external_body]
fn try_owned<T>(mutex: &Arc<TokioMutex<T>>) -> (guard: Option<OwnedMutexGuard<T>>) {
    mutex.clone().try_lock_owned().ok()
}

impl GraphView {
    /// The task waits for the lock.
    pub open spec fn wait(self, task: u64, lock: Seq<char>) -> GraphView {
        self.add_edge(NodeView::Task(task), NodeView::Lock(lock))
    }

    /// The lock is held by the task.
    pub open spec fn own(self, task: u64, lock: Seq<char>) -> GraphView {
        self.add_edge(NodeView::Lock(lock), NodeView::Task(task))
    }

    /// The task waits no longer, and holds the lock.
    pub open spec fn acquire(self, task: u64, lock: Seq<char>) -> GraphView {
        self.clear_edges_from(NodeView::Task(task)).own(task, lock)
    }

    /// The lock is neither held nor waited for.
    pub open spec fn release(self, lock: Seq<char>) -> GraphView {
        self.clear_edges_from(NodeView::Lock(lock)).clear_edges_to(NodeView::Lock(lock))
    }
}

impl<T> MonitoredMutex<T> {
    /// Trying the mutex itself, without waiting, can have given `tried`.
    pub closed spec fn tries_to(&self, tried: Option<OwnedMutexGuard<T>>) -> bool {
        call_ensures(try_owned::<T>, (&self.inner,), tried)
    }

    /// What trying gave is what an attempt on the mutex itself gave.
    proof fn law_tries_to(&self, tried: Option<OwnedMutexGuard<T>>)
        ensures
            self.tries_to(tried) <==> call_ensures(try_owned::<T>, (&self.inner,), tried),
    {
    }

    pub fn new(inner: TokioMutex<T>, name: String) -> (mutex: Self)
        ensures
            *mutex.inner == inner,
            mutex.name == name,
    {
        MonitoredMutex { inner: Arc::new(inner), name }
    }

    /// The first half of acquiring the lock: records Task -> Lock (waiting), before the
    /// mutex itself is awaited.
    pub fn begin_lock(&self, graph: &mut WaitForGraph, task: TaskId)
        ensures
            final(graph)@ == old(graph)@.wait(task, self.name@),
    {
        graph.add_edge(Node::Task(task), Node::Lock(self.name.clone()));
    }

    /// The second half of acquiring the lock, once awaiting the mutex itself gave `owned`:
    /// removes Task -> Lock (no longer waiting) and adds Lock -> Task (owner).
    pub fn finish_lock(
        &self,
        graph: &mut WaitForGraph,
        task: TaskId,
        owned: OwnedMutexGuard<T>,
    ) -> (guard: MonitoredMutexGuard<T>)
        ensures
            guard.inner == owned,
            guard.name == self.name,
            guard.owner == task,
            final(graph)@ == old(graph)@.acquire(task, self.name@),
    {
        graph.clear_edges_from(&Node::Task(task)); // remove waiting edges
        graph.add_edge(Node::Lock(self.name.clone()), Node::Task(task));
        MonitoredMutexGuard { inner: owned, name: self.name.clone(), owner: task }
    }

    /// Try lock (non-waiting) — returns None if not available.
    pub fn try_lock(&self, graph: &mut WaitForGraph, task: TaskId) -> (guard: Option<
        MonitoredMutexGuard<T>,
    >)
        ensures
            exists|tried: Option<OwnedMutexGuard<T>>| #[trigger]
                self.tries_to(tried) && match tried {
                    Some(owned) => {
                        &&& guard matches Some(held)
                        &&& held.inner == owned
                        &&& held.name == self.name
                        &&& held.owner == task
                        &&& final(graph)@ == old(graph)@.own(task, self.name@)
                    },
                    None => guard is None && final(graph)@ == old(graph)@,
                },
    {
        let tried = try_owned(&self.inner);
        assert(self.tries_to(tried));
        self.adopt(graph, task, tried)
    }

    /// Non-blocking try_lock, returns Some(guard) if acquired
    pub fn try_lock_nowait(&self, graph: &mut WaitForGraph, task: TaskId) -> (guard: Option<
        MonitoredMutexGuard<T>,
    >)
        ensures
            exists|tried: Option<OwnedMutexGuard<T>>| #[trigger]
                self.tries_to(tried) && match tried {
                    Some(owned) => {
                        &&& guard matches Some(held)
                        &&& held.inner == owned
                        &&& held.name == self.name
                        &&& held.owner == task
                        &&& final(graph)@ == old(graph)@.own(task, self.name@)
                    },
                    None => guard is None && final(graph)@ == old(graph)@,
                },
    {
        let tried = try_owned(&self.inner);
        assert(self.tries_to(tried));
        self.adopt(graph, task, tried)
    }

    /// What becomes of `tried`, which trying the mutex itself gave: a guard with its owner
    /// recorded, or None where the mutex was not available.
    pub fn adopt(
        &self,
        graph: &mut WaitForGraph,
        task: TaskId,
        tried: Option<OwnedMutexGuard<T>>,
    ) -> (guard: Option<MonitoredMutexGuard<T>>)
        ensures
            match tried {
                Some(owned) => {
                    &&& guard matches Some(held)
                    &&& held.inner == owned
                    &&& held.name == self.name
                    &&& held.owner == task
                    &&& final(graph)@ == old(graph)@.own(task, self.name@)
                },
                None => guard is None && final(graph)@ == old(graph)@,
            },
    {
        match tried {
            Some(owned) => {
                // on acquire: add Lock->Task edge
                graph.add_edge(Node::Lock(self.name.clone()), Node::Task(task));
                Some(MonitoredMutexGuard { inner: owned, name: self.name.clone(), owner: task })
            },
            None => None,
        }
    }
}

impl<T> MonitoredMutexGuard<T> {
    /// The name of the mutex.
    pub fn name(&self) -> (name: &str)
        ensures
            name@ == self.name@,
    {
        self.name.as_str()
    }

    /// The task that holds the mutex.
    pub fn owner(&self) -> (owner: TaskId)
        ensures
            owner == self.owner,
    {
        self.owner
    }

    /// What is recorded when the guard is dropped: removes the edges from and to the lock.
    pub fn release(&self, graph: &mut WaitForGraph)
        ensures
            final(graph)@ == old(graph)@.release(self.name@),
    {
        let lock_node = Node::Lock(self.name.clone());
        graph.clear_edges_from(&lock_node); // remove Lock -> Task edges
        // also remove edges to the lock
        graph.clear_edges_to(&lock_node);
    }
}

} // verus!
