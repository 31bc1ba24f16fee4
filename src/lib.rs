//! Per-directory key/value overrides. A value set in a directory is seen
//! there and in every directory below it; a nearer directory shadows the
//! values of those above it.
//!
//! `scope` holds the store, `projector` the walk from a directory to the root
//! with the lookups and changes made along it, and `config` the reading of a
//! command line into an operation and the paths it works on.

pub mod config;
pub mod path;
pub mod projector;
pub mod scope;
