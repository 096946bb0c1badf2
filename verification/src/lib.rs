//! Release planning for repositories that hold several independently
//! versioned projects.
//!
//! The planner attributes commits to projects, derives a bump size for each
//! project, carries bumps along the dependency graph, orders the changelogs
//! and decides, project by project, whether a release moves the version
//! forward.

pub mod builder;
pub mod changelog;
pub mod commands;
pub mod config;
pub mod conventional;
pub mod deps;
pub mod error;
pub mod graph;
pub mod history;
pub mod last_commits;
pub mod mono;
pub mod number;
pub mod order;
pub mod plan;
pub mod project;
pub mod release;
pub mod repo;
pub mod size;
pub mod state;
pub mod tag_order;
pub mod tags;
pub mod text;
pub mod version;
pub mod walk;
