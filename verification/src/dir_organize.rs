//! Reorganizing a directory's contents by a naming convention.
//!
//! This collaborator accepts a snapshot and returns the operations that would
//! reorganize its contents. The naming scheme is a placeholder: no scheme is
//! implemented yet, so the list of operations is always empty. A real
//! implementation plugs in here without altering the comparator or the
//! planner.

use crate::dir_sync::SyncOp;
use crate::dir_tree::DirTree;
use vstd::prelude::*;

verus! {

/// Produces the operations that would reorganize the directory's contents;
/// with no naming scheme implemented yet, the list is always empty.
pub fn generate_organize_operations(dir_tree: &DirTree) -> (ops: Vec<SyncOp>)
    ensures
        ops@.len() == 0,
{
    let _ = dir_tree;
    Vec::new()
}

} // verus!
