//! Workspace manager for repositories hosted on a GitLab server.
//!
//! The library holds the decisions: reading the configuration and layout
//! documents, deriving local checkout paths, walking a group hierarchy, and
//! deciding which repositories a bootstrap clones. Talking to the remote,
//! the terminal and the version-control binary is left to the caller.
pub mod bootstrap;
pub mod config;
pub mod document;
pub mod layout;
pub mod project;
pub mod walk;
