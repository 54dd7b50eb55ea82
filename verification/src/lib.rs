//! An in-memory task scheduling engine: tasks fire once after a delay,
//! repeatedly on a fixed interval, or on a cron expression; firings are
//! started with bounded parallelism and each task's lifecycle state and
//! last result are tracked.

mod clock;
pub mod cron;
pub mod manager;
pub mod task;
pub mod updater;
