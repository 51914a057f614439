//! Brings the change of a task into a working tree.
//!
//! A task carries a patch in unified-diff form. `extract` reads the patch
//! into entries, one for each file. `reconcile` decides what an entry does
//! to its file, with `merge` for the hunks of a modified file and
//! `conflict` for the regions that cannot be reconciled. `progress` follows
//! an apply from entry to entry, `apply` runs it on a `tree` in memory, and
//! `task` puts the steps together. `laws` and `settle` state what holds of
//! every apply.
//!
//! `slash_command`, `approval_presets` and `model_presets` hold the tables
//! that the user interface shows.

pub mod apply;
pub mod approval_presets;
pub mod conflict;
pub mod entry;
pub mod error;
pub mod extract;
pub mod header;
pub mod laws;
pub mod locate;
pub mod merge;
pub mod model_presets;
pub mod path;
pub mod progress;
pub mod reconcile;
pub mod settle;
pub mod slash_command;
pub mod task;
pub mod text;
pub mod tree;
