//! Run the commands a CI pipeline would run, locally, before pushing or
//! committing.
//!
//! The library parses two CI description formats (a GitHub-Actions-like one
//! and a GitLab-CI-like one) into a unified task model, filters the tasks by a
//! command blacklist and by the triggers of the local git event, and builds a
//! de-duplicated execution plan.

pub mod args;
pub mod ci;
pub mod config;
pub mod run;
pub mod text;
pub mod yaml;
