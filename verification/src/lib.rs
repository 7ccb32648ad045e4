//! Locates and classifies "cruft" directories (build artifacts, caches,
//! dependency trees, temp and virtualenv dirs) under a filesystem subtree,
//! and drives an interactive session for reviewing and deleting them.
//!
//! The crate is organised leaves-first:
//! - [`cycle`]: a closed, ordered value set with a wrapping successor.
//! - [`age_filter`], [`size_filter`], [`type_filter`], [`sort_order`]:
//!   the cyclic filter and sort configuration values.
//! - [`text`]: character-sequence matching helpers used by the classifier.
//! - [`scanner`]: the classifier (path to cruft reason) and the entry type.
//! - [`walker`]: a filesystem model and the pruning scan over it.
//! - [`registry`]: the store of discovered entries and scan progress.
//! - [`filter`]: the pure filter/sort engine over registry snapshots.
//! - [`session`]: the interaction state machine.
//!
//! All filesystem, terminal and thread plumbing lives outside this crate;
//! the library works on plain values and is verified end to end.

pub mod age_filter;
pub mod cycle;
pub mod filter;
pub mod registry;
pub mod scanner;
pub mod text;
pub mod session;
pub mod size_filter;
pub mod sort_order;
pub mod type_filter;
pub mod walker;
