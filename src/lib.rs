//! Pre-commit dispatch of shell commands over staged files.
//!
//! The library compiles a glob-to-commands configuration, derives the list of
//! staged paths from the deltas between the head tree and the index, and plans
//! which command runs with which paths. Running the processes and reading the
//! repository is left to the caller.
pub mod glob;
pub mod staged;
pub mod command;
pub mod config;
pub mod dispatch;

