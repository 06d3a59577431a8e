//! Workspace resolution for a tree of hook-configuration projects.
//!
//! The library discovers every configuration scope under a workspace root,
//! deduplicates the remote repositories those scopes declare, assembles the
//! fully merged, globally ordered list of hooks, and checks that every
//! configuration file is staged in version control.
//!
//! All filesystem, network and version-control work is delegated to the
//! caller: directory trees, parsed configurations, fetched checkouts and
//! staging states enter as plain values, so every decision made here is
//! verified.

pub mod assemble;
pub mod config;
pub mod error;
pub mod hook;
pub mod locate;
pub mod path;
pub mod project;
pub mod resolve;
pub mod strings;
pub mod walk;
pub mod workspace;
