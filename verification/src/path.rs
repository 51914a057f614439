//! Paths within a working tree.
//!
//! A path is a byte string of components parted by `/`. It is relative to
//! the root of the tree, and admitted only where it cannot leave the tree:
//! no component is empty, `.` or `..`.

use vstd::prelude::*;
use crate::text::{bytes_equal, copy_bytes};

verus! {

/// The byte that parts the components of a path.
pub const SLASH: u8 = 47;

/// The byte of which the components `.` and `..` are made.
pub const DOT: u8 = 46;

/// Whether a component begins at index `i`.
pub open spec fn starts_component(path: Seq<u8>, i: int) -> bool {
    i == 0 || path[i - 1] == SLASH
}

/// Whether a component ends at index `i`.
pub open spec fn ends_component(path: Seq<u8>, i: int) -> bool {
    i >= path.len() || path[i] == SLASH
}

/// Whether the component that begins at index `i` is empty, `.` or `..`.
pub open spec fn bad_component_at(path: Seq<u8>, i: int) -> bool {
    &&& starts_component(path, i)
    &&& {
        ||| ends_component(path, i)
        ||| path[i] == DOT && ends_component(path, i + 1)
        ||| path[i] == DOT && i + 1 < path.len() && path[i + 1] == DOT && ends_component(
            path,
            i + 2,
        )
    }
}

/// Whether a path is relative and normalized. The empty path, a path that
/// begins or ends with `/`, and one with `//` in it all have an empty
/// component.
pub open spec fn valid_path(path: Seq<u8>) -> bool {
    forall|i: int| 0 <= i <= path.len() ==> !#[trigger] bad_component_at(path, i)
}

/// Whether `path` lies under `dir`: `dir`, then `/`, then more.
pub open spec fn lies_under(path: Seq<u8>, dir: Seq<u8>) -> bool {
    &&& dir.len() < path.len()
    &&& path[dir.len() as int] == SLASH
    &&& path.subrange(0, dir.len() as int) == dir
}

/// What a vector of paths holds.
pub open spec fn paths_view(paths: Seq<Vec<u8>>) -> Seq<Seq<u8>> {
    Seq::new(paths.len(), |i: int| paths[i]@)
}

/// Whether `path` lies under one of `dirs`.
pub open spec fn lies_under_any(path: Seq<u8>, dirs: Seq<Seq<u8>>) -> bool {
    exists|i: int| 0 <= i < dirs.len() && lies_under(path, #[trigger] dirs[i])
}

/// The paths with `path` added at the end, unless it is among them.
pub open spec fn with_path(paths: Seq<Seq<u8>>, path: Seq<u8>) -> Seq<Seq<u8>> {
    if paths.contains(path) {
        paths
    } else {
        paths.push(path)
    }
}

/// A list with a path added holds that path, and every path it held.
pub proof fn lemma_with_path_contains(paths: Seq<Seq<u8>>, path: Seq<u8>)
    ensures
        with_path(paths, path).contains(path),
        forall|other: Seq<u8>| paths.contains(other) ==> with_path(paths, path).contains(other),
{
    if !paths.contains(path) {
        let grown = paths.push(path);
        assert(grown[paths.len() as int] == path);
        assert forall|other: Seq<u8>| paths.contains(other) implies grown.contains(other) by {
            let i = choose|i: int| 0 <= i < paths.len() && paths[i] == other;
            assert(grown[i] == other);
        }
    }
}

/// Adding a path keeps a list free of repetitions.
pub proof fn lemma_with_path_no_duplicates(paths: Seq<Seq<u8>>, path: Seq<u8>)
    requires
        paths.no_duplicates(),
    ensures
        with_path(paths, path).no_duplicates(),
{
}

/// Whether a path is relative and normalized.
pub fn is_valid_path(path: &Vec<u8>) -> (valid: bool)
    ensures
        valid == valid_path(path@),
{
    let n = path.len();
    let mut i: usize = 0;
    loop
        invariant_except_break
            i <= n,
            forall|j: int| 0 <= j < i ==> !#[trigger] bad_component_at(path@, j),
        invariant
            n == path.len(),
        ensures
            forall|j: int| 0 <= j <= n ==> !#[trigger] bad_component_at(path@, j),
        decreases n - i,
    {
        if i == 0 || path[i - 1] == SLASH {
            if i >= n || path[i] == SLASH {
                assert(bad_component_at(path@, i as int));
                return false;
            }
            if path[i] == DOT {
                if i + 1 >= n || path[i + 1] == SLASH {
                    assert(bad_component_at(path@, i as int));
                    return false;
                }
                if path[i + 1] == DOT && (i + 2 >= n || path[i + 2] == SLASH) {
                    assert(bad_component_at(path@, i as int));
                    return false;
                }
            }
        }
        assert(!bad_component_at(path@, i as int));
        if i == n {
            break;
        }
        i += 1;
    }
    true
}

/// Whether `path` lies under `dir`.
pub fn is_under(path: &Vec<u8>, dir: &Vec<u8>) -> (under: bool)
    ensures
        under == lies_under(path@, dir@),
{
    let n = dir.len();
    if n >= path.len() || path[n] != SLASH {
        return false;
    }
    let mut i: usize = 0;
    while i < n
        invariant
            i <= n,
            n == dir.len(),
            n < path.len(),
            forall|j: int| 0 <= j < i ==> path@[j] == dir@[j],
        decreases n - i,
    {
        if path[i] != dir[i] {
            assert(path@.subrange(0, n as int)[i as int] != dir@[i as int]);
            return false;
        }
        i += 1;
    }
    assert(path@.subrange(0, n as int) =~= dir@);
    true
}

/// Whether `path` is among `paths`.
pub fn holds_path(paths: &Vec<Vec<u8>>, path: &Vec<u8>) -> (found: bool)
    ensures
        found == paths_view(paths@).contains(path@),
{
    let mut i: usize = 0;
    while i < paths.len()
        invariant
            i <= paths.len(),
            forall|j: int| 0 <= j < i ==> paths_view(paths@)[j] != path@,
        decreases paths.len() - i,
    {
        if bytes_equal(&paths[i], path) {
            assert(paths_view(paths@)[i as int] == path@);
            return true;
        }
        i += 1;
    }
    false
}

/// Whether `path` lies under one of `dirs`.
pub fn is_under_any(path: &Vec<u8>, dirs: &Vec<Vec<u8>>) -> (under: bool)
    ensures
        under == lies_under_any(path@, paths_view(dirs@)),
{
    let mut i: usize = 0;
    while i < dirs.len()
        invariant
            i <= dirs.len(),
            forall|j: int| 0 <= j < i ==> !lies_under(path@, #[trigger] paths_view(dirs@)[j]),
        decreases dirs.len() - i,
    {
        if is_under(path, &dirs[i]) {
            assert(lies_under(path@, paths_view(dirs@)[i as int]));
            return true;
        }
        i += 1;
    }
    false
}

/// Adds `path` at the end of `paths`, unless it is among them.
pub fn add_path(paths: &mut Vec<Vec<u8>>, path: &Vec<u8>)
    ensures
        paths_view(final(paths)@) == with_path(paths_view(old(paths)@), path@),
{
    if !holds_path(paths, path) {
        paths.push(copy_bytes(path));
        assert(paths_view(paths@) =~= paths_view(old(paths)@).push(path@));
    }
}

} // verus!
