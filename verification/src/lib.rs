//! Stall and deadlock detection for asynchronous tasks.
//!
//! [`monitor`] keeps the registry of the tasks that are running and tells which of them
//! have stalled. [`graph`] records which task waits for which lock and which lock is held
//! by which task, as [`monitored_mutex`] reports it, and finds cycles. [`watchdog`] puts
//! the two together into the reports of a watchdog. [`rewrite`] decides which spawn calls
//! of a function are replaced by their monitored versions.

pub mod clock;
pub mod graph;
pub mod graph_laws;
pub mod lock_laws;
pub mod model;
pub mod monitor;
pub mod monitor_laws;
pub mod monitored_mutex;
pub mod rewrite;
pub mod rewrite_laws;
mod search;
pub mod text;
pub mod watchdog;

pub use graph::{Node, WaitForGraph};
pub use monitor::{spawn_blocking_monitored, spawn_monitored, TaskInfo, TaskRegistry};
pub use monitored_mutex::{MonitoredMutex, MonitoredMutexGuard};
