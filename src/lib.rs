//! Lazy resolution of `$ref` JSON pointers across a graph of JSON and YAML documents.
//!
//! Documents live in a [`SparseState`] store, keyed by path and stamped with a version.
//! A document read into the engine becomes a tree of [`SparseSelector`] values, where each
//! `{"$ref": "file#/pointer"}` object is a reference. Resolution replaces each reference's
//! cache with the value its pointer names, depth first and with a bound on depth that stops
//! cycles. A write view saves a value back into its document, which bumps the version; the
//! next update of the [`SparseRoot`] re-resolves every reference that has gone stale.
use vstd::prelude::*;

pub mod resolution;
pub mod sparse_errors;
pub mod sparse_ref_utils;
pub mod sparse_root;
pub mod sparse_selector;
pub mod sparse_state;
pub mod sparse_value;
pub mod tree;

pub use crate::sparse_errors::SparseError;
pub use crate::sparse_ref_utils::SparseRefUtils;
pub use crate::sparse_root::SparseRoot;
pub use crate::sparse_selector::SparseRef;
pub use crate::sparse_selector::SparseRefRaw;
pub use crate::sparse_selector::SparseSelector;
pub use crate::sparse_state::SparseFileFormat;
pub use crate::sparse_state::SparseState;
pub use crate::sparse_state::SparseStateFile;
pub use crate::sparse_value::SparseValue;
pub use crate::sparse_value::SparseValueMut;
pub use crate::tree::Tree;

verus! {

/// The depth at which recursive resolution stops with a cyclic-reference error. Each level
/// of nesting and each reference followed counts one.
pub const MAX_SPARSE_DEPTH: u32 = 100;

} // verus!
