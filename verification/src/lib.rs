//! A polling file watcher's engine: a pruned snapshot tree of the tracked
//! files under a directory, change detection by modification time, line
//! diffs of changed files and the notifications that report them.

pub mod text;
pub mod diff;
pub mod config;
pub mod node;
pub mod notification;
pub mod poll;
pub mod schedule;
pub mod tree;
