//! Reconciliation of per-project MCP server definitions.
//!
//! Server definitions live in a global registry document, keyed by project
//! path, and in optional per-project override documents. This library merges
//! them into one registry keyed by server name, decides whether the sources of
//! a name agree once each project's own path is factored out, picks the source
//! to copy from, and edits the global registry document.

pub mod codec;
pub mod commands;
pub mod differ;
pub mod document;
pub mod laws;
pub mod model;
pub mod mutator;
pub mod project;
pub mod reading;
pub mod registry;
pub mod resolver;
pub mod strmap;
pub mod text;
