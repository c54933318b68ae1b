//! Reconciliation of a configuration root with a Home directory.
//!
//! - `plan`: what each operation does to one entry, as steps over a file
//!   tree, and what each step does to a tree.
//! - `tree`, `reconcile`: an in-memory tree that carries plans out, and the
//!   operations run over a list of entries.
//! - `laws`: what holds of the operations (idempotence, round trip, links
//!   never written through, populated directories never removed, pruning
//!   bounds, ignored files never synced).
//! - `walk`, `patterns`: which entries of a root take part, ignore files
//!   included.
//! - `compare`: status and diff of an entry.
//! - `hooks`, `root`, `cli`, `ui`: hook order, finding the root, the
//!   command line, and the text shown.

use vstd::prelude::*;

pub mod cli;
pub mod compare;
pub mod hooks;
pub mod laws;
pub mod order;
pub mod patterns;
pub mod plan;
pub mod reconcile;
pub mod text;
pub mod root;
pub mod tree;
pub mod ui;
pub mod walk;

verus! {

/// The version of this library and of the `deez` command.
pub const VERSION: &'static str = "0.1.0";

} // verus!
