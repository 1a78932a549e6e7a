//! Verified core of a git-backed, file-based issue tracker.

pub mod error;
pub mod text;
pub mod models;
pub mod graph;
pub mod dependencies;
pub mod hierarchy;
pub mod ids;
pub mod issue_creation;
pub mod daemon_protocol;
pub mod paths;
pub mod event_history;
pub mod daemon_paths;
pub mod daemon_server;
pub mod issue_files;
pub mod console_backend;
pub mod agent_metadata;
pub mod issue_comment;
pub mod config;
pub mod config_loader;
pub mod console_local;
pub mod cli;
pub mod issue_line;
pub mod issue_display;
pub mod issue_update;
pub mod beads_write;
pub mod json_value;
pub mod agents_management;
pub mod issue_lookup;
pub mod index;
pub mod project_management;
pub mod issue_listing;
pub mod file_io;
