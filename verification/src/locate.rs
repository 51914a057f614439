//! Finding the working tree that a directory belongs to.
//!
//! A directory is in a working tree where it, or a directory above it, holds
//! version-control metadata. Whoever looks at the disk says, for the
//! directory and for each directory above it in turn, whether it does.

use vstd::prelude::*;
use crate::error::ApplyError;

verus! {

/// Whether `depth` is the first index at which `markers` holds `true`.
pub open spec fn is_root_at(markers: Seq<bool>, depth: int) -> bool {
    &&& 0 <= depth < markers.len()
    &&& markers[depth]
    &&& forall|k: int| 0 <= k < depth ==> !markers[k]
}

/// Finds the root of the working tree of a directory. `markers[0]` says
/// whether the directory itself holds version-control metadata,
/// `markers[1]` whether the directory above it does, and so on upwards.
///
/// Gives the number of steps from the directory up to the nearest directory
/// that holds the metadata, which is the root of its working tree. Fails
/// where none does.
pub fn locate_working_tree(markers: &Vec<bool>) -> (result: Result<usize, ApplyError>)
    ensures
        match result {
            Ok(depth) => is_root_at(markers@, depth as int),
            Err(error) => error == ApplyError::NotAVersionedTree && forall|k: int|
                0 <= k < markers.len() ==> !markers[k],
        },
{
    let mut depth: usize = 0;
    while depth < markers.len()
        invariant
            depth <= markers.len(),
            forall|k: int| 0 <= k < depth ==> !markers[k],
        decreases markers.len() - depth,
    {
        if markers[depth] {
            return Ok(depth);
        }
        depth += 1;
    }
    Err(ApplyError::NotAVersionedTree)
}

} // verus!
