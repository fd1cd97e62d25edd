//! A personal journal kept as plain text files, with a verified engine that
//! reconciles the journal directory with a remote version-controlled store.
//!
//! The synchronization engine works on an explicit model of the local store:
//! a working directory, a staging index, a history of commits and an optional
//! remote. Scanning, staging, committing, merging and pushing are all
//! expressed and proved over that model; the thin driver that talks to the
//! real backend lives outside the library and only executes the decisions
//! made here.

pub mod cfg;
pub mod cmd;
pub mod date;
pub mod digits;
pub mod entry;
pub mod errors;
pub mod fileset;
pub mod laws;
pub mod plan;
pub mod repo;
pub mod remote;
pub mod scan;
pub mod select;
pub mod stage;
pub mod sync;
