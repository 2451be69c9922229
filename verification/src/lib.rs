//! Herostratus mines a commit history for achievements.
//!
//! Commits are walked newest first and handed to a set of stateful rules. The
//! rules grant achievements, either as they see a commit or once the walk has
//! ended. A per-repository cache remembers where the previous run stopped, so
//! that a later run only does the work that is new.
//!
//! This crate holds the logic of that pipeline on plain values. Reading a
//! repository, the configuration file and the cache file is left to the
//! program around it.
pub mod achievement;
pub mod cache;
pub mod cli;
pub mod commands;
pub mod config;
pub mod git;
pub mod rules;
pub mod utils;
