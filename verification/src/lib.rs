//! Storage engine for a directory-per-record project store.
//!
//! Records live in a `working` directory while active and move into
//! year-partitioned `archive` directories when closed out.  This crate
//! verifies the engine's decisions: path resolution, the directory-layout
//! invariants, the archive/unarchive transitions, search and selection.
//! The surrounding application performs the actual filesystem calls and
//! feeds their observations (directory listings, existence flags) back in
//! as plain values.

use vstd::prelude::*;

pub mod config;
pub mod error;
pub mod numbers;
pub mod paths;
pub mod project_list;
pub mod record;
pub mod search;
pub mod storable;
pub mod storage;
pub mod textops;

pub use error::StorageError;
pub use project_list::{ProjectList, Projects, ProjectsByYear};
pub use storable::{GitStatus, Storable};
pub use storage::{Repository, Storage, StorageDir, StorageSelection};

verus! {

/// Archive partitions are keyed by a signed year.
pub type Year = i32;

} // verus!
