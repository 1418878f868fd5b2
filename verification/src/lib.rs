//! Reconcile a package manifest with its lock file and plan the
//! documentation-tool invocations for its direct dependencies.
//!
//! The crate parses the two documents into plain models, matches each
//! declared version range against the exact versions the lock pool pins
//! (always preferring the highest satisfying one), applies exclusion and
//! force-include overrides, resolves package renames, enumerates
//! workspace members, and renders every planned invocation's argument
//! list. Reading files, spawning the external tool and command-line
//! handling stay outside.

pub mod doc_model;
pub mod doc_parse;
pub mod extract;
pub mod invoke;
pub mod model;
pub mod plan;
pub mod reconcile;
pub mod resolve;
pub mod strutil;
pub mod versions;
