//! A working tree held in memory: the files under a root, each with its path
//! and its content.
//!
//! Directories are not kept: a directory is there while a file lies under
//! it. A file cannot be written where that would make a file of a directory
//! or a directory of a file.

use vstd::prelude::*;
use crate::error::ApplyError;
use crate::path::{is_under, lies_under};
use crate::reconcile::{content_view, FileChange, FileChangeView};
use crate::text::{bytes_equal, copy_bytes};

verus! {

/// One file of a tree.
#[derive(Debug, Clone, PartialEq, Eq)]
pub struct FileNode {
    pub path: Vec<u8>,
    pub content: Vec<u8>,
}

/// No two of the files have the same path.
pub open spec fn distinct_paths(files: Seq<FileNode>) -> bool {
    forall|i: int, j: int|
        0 <= i < files.len() && 0 <= j < files.len() && i != j ==> #[trigger] files[i].path@
            != #[trigger] files[j].path@
}

/// Whether one of the files has this path.
pub open spec fn has_file(files: Seq<FileNode>, path: Seq<u8>) -> bool {
    exists|i: int| 0 <= i < files.len() && #[trigger] files[i].path@ == path
}

/// The index of a file with this path.
pub open spec fn file_index(files: Seq<FileNode>, path: Seq<u8>) -> int {
    choose|i: int| 0 <= i < files.len() && #[trigger] files[i].path@ == path
}

/// The files as a map from path to content.
pub open spec fn files_map(files: Seq<FileNode>) -> Map<Seq<u8>, Seq<u8>> {
    Map::new(
        |path: Seq<u8>| has_file(files, path),
        |path: Seq<u8>| files[file_index(files, path)].content@,
    )
}

/// Under distinct paths, each file is in the map with its content.
pub proof fn lemma_files_map_at(files: Seq<FileNode>, i: int)
    requires
        distinct_paths(files),
        0 <= i < files.len(),
    ensures
        files_map(files).contains_key(files[i].path@),
        files_map(files)[files[i].path@] == files[i].content@,
{
    assert(has_file(files, files[i].path@));
    assert(file_index(files, files[i].path@) == i);
}

/// Whether a file at `path` would stand in the way of a file of the tree, or
/// one of them in its way: one of the two would lie under the other.
pub open spec fn obstructed(tree: Map<Seq<u8>, Seq<u8>>, path: Seq<u8>) -> bool {
    exists|other: Seq<u8>|
        #[trigger] tree.contains_key(other) && (lies_under(path, other) || lies_under(other, path))
}

/// Whether the tree has a file under `dir`.
pub open spec fn directory_in(tree: Map<Seq<u8>, Seq<u8>>, dir: Seq<u8>) -> bool {
    exists|path: Seq<u8>| #[trigger] tree.contains_key(path) && lies_under(path, dir)
}

/// What the tree holds at `path`, if anything.
pub open spec fn content_at(tree: Map<Seq<u8>, Seq<u8>>, path: Seq<u8>) -> Option<Seq<u8>> {
    if tree.contains_key(path) {
        Some(tree[path])
    } else {
        None
    }
}

/// The tree after a change to the file at `path`.
pub open spec fn perform(
    tree: Map<Seq<u8>, Seq<u8>>,
    path: Seq<u8>,
    change: FileChangeView,
) -> Map<Seq<u8>, Seq<u8>> {
    match change {
        FileChangeView::Keep => tree,
        FileChangeView::Write { content } => tree.insert(path, content),
        FileChangeView::Remove => tree.remove(path),
    }
}

/// Whether a change to the file at `path` cannot be carried out: it would
/// write a file where the path is obstructed.
pub open spec fn blocked(tree: Map<Seq<u8>, Seq<u8>>, path: Seq<u8>, change: FileChangeView) -> bool {
    change is Write && obstructed(tree, path)
}

/// A working tree in memory.
#[derive(Debug, Clone)]
pub struct WorkingTree {
    versioned: bool,
    files: Vec<FileNode>,
}

impl View for WorkingTree {
    type V = Map<Seq<u8>, Seq<u8>>;

    closed spec fn view(&self) -> Map<Seq<u8>, Seq<u8>> {
        files_map(self.files@)
    }
}

impl WorkingTree {
    /// The tree is in order: no two of its files have the same path. Every
    /// tree that `new` made and the methods changed is.
    pub closed spec fn wf(&self) -> bool {
        distinct_paths(self.files@)
    }

    /// Whether the tree is under version control.
    pub closed spec fn versioned(self) -> bool {
        self.versioned
    }

    /// A tree without files, under version control or not.
    pub fn new(versioned: bool) -> (tree: WorkingTree)
        ensures
            tree.wf(),
            tree@ == Map::<Seq<u8>, Seq<u8>>::empty(),
            tree.versioned() == versioned,
    {
        let tree = WorkingTree { versioned, files: Vec::new() };
        assert(tree@ =~= Map::<Seq<u8>, Seq<u8>>::empty());
        tree
    }

    /// Whether the tree is under version control.
    pub fn is_versioned(&self) -> (versioned: bool)
        ensures
            versioned == self.versioned(),
    {
        self.versioned
    }

    /// The number of files in the tree.
    pub fn file_count(&self) -> (count: usize)
        requires
            self.wf(),
        ensures
            count == self@.dom().len(),
            self@.dom().finite(),
    {
        proof {
            lemma_files_map_count(self.files@);
        }
        self.files.len()
    }

    /// The index of the file at `path`, if there is one.
    fn find(&self, path: &Vec<u8>) -> (found: Option<usize>)
        ensures
            match found {
                Some(i) => i < self.files.len() && self.files[i as int].path@ == path@,
                None => !has_file(self.files@, path@),
            },
    {
        let mut i: usize = 0;
        while i < self.files.len()
            invariant
                i <= self.files.len(),
                forall|j: int| 0 <= j < i ==> self.files[j].path@ != path@,
            decreases self.files.len() - i,
        {
            if bytes_equal(&self.files[i].path, path) {
                return Some(i);
            }
            i += 1;
        }
        None
    }

    /// What the file at `path` holds, if it is there.
    pub fn read(&self, path: &Vec<u8>) -> (content: Option<&Vec<u8>>)
        requires
            self.wf(),
        ensures
            content_view(content) == content_at(self@, path@),
    {
        match self.find(path) {
            Some(i) => {
                proof {
                    lemma_files_map_at(self.files@, i as int);
                }
                Some(&self.files[i].content)
            },
            None => None,
        }
    }

    /// Whether a file at `path` cannot be written: a file of the tree lies
    /// under `path`, or `path` lies under a file of the tree.
    pub fn is_obstructed(&self, path: &Vec<u8>) -> (blocked: bool)
        ensures
            blocked == obstructed(self@, path@),
    {
        let mut i: usize = 0;
        while i < self.files.len()
            invariant
                i <= self.files.len(),
                forall|j: int|
                    0 <= j < i ==> !(lies_under(path@, #[trigger] self.files[j].path@)
                        || lies_under(self.files[j].path@, path@)),
            decreases self.files.len() - i,
        {
            if is_under(path, &self.files[i].path) || is_under(&self.files[i].path, path) {
                assert(has_file(self.files@, self.files[i as int].path@));
                assert(self@.contains_key(self.files[i as int].path@));
                return true;
            }
            i += 1;
        }
        false
    }

    /// Whether the tree has a directory `dir`, that is, a file under it.
    pub fn has_directory(&self, dir: &Vec<u8>) -> (found: bool)
        ensures
            found == directory_in(self@, dir@),
    {
        let mut i: usize = 0;
        while i < self.files.len()
            invariant
                i <= self.files.len(),
                forall|j: int| 0 <= j < i ==> !lies_under(#[trigger] self.files[j].path@, dir@),
            decreases self.files.len() - i,
        {
            if is_under(&self.files[i].path, dir) {
                assert(has_file(self.files@, self.files[i as int].path@));
                assert(self@.contains_key(self.files[i as int].path@));
                return true;
            }
            i += 1;
        }
        false
    }

    /// Writes the file at `path`, whole: a new file, or new content for the
    /// one that is there. Fails, and changes nothing, where the path is
    /// obstructed.
    pub fn write(&mut self, path: &Vec<u8>, content: Vec<u8>) -> (result: Result<(), ApplyError>)
        requires
            old(self).wf(),
        ensures
            final(self).wf(),
            final(self).versioned() == old(self).versioned(),
            obstructed(old(self)@, path@) ==> result == Err::<(), ApplyError>(ApplyError::IoFailure)
                && final(self)@ == old(self)@,
            !obstructed(old(self)@, path@) ==> result == Ok::<(), ApplyError>(()) && final(self)@
                == old(self)@.insert(path@, content@),
    {
        if self.is_obstructed(path) {
            return Err(ApplyError::IoFailure);
        }
        let ghost before = self.files@;
        let node = FileNode { path: copy_bytes(path), content };
        match self.find(path) {
            Some(i) => {
                self.files.set(i, node);
                proof {
                    let after = self.files@;
                    assert(distinct_paths(after));
                    assert forall|p: Seq<u8>| has_file(after, p) <==> (has_file(before, p) || p
                        == path@) by {
                        if has_file(after, p) {
                            let j = choose|j: int| 0 <= j < after.len() && after[j].path@ == p;
                            assert(before[j].path@ == p);
                        }
                        if has_file(before, p) {
                            let j = choose|j: int| 0 <= j < before.len() && before[j].path@ == p;
                            assert(after[j].path@ == p);
                        }
                        if p == path@ {
                            assert(after[i as int].path@ == p);
                        }
                    }
                    assert forall|p: Seq<u8>| has_file(after, p) implies files_map(after)[p] == (
                    if p == path@ {
                        content@
                    } else {
                        files_map(before)[p]
                    }) by {
                        let j = choose|j: int| 0 <= j < after.len() && after[j].path@ == p;
                        lemma_files_map_at(after, j);
                        if j != i {
                            lemma_files_map_at(before, j);
                        }
                    }
                    assert(files_map(after) =~= files_map(before).insert(path@, content@));
                }
            },
            None => {
                self.files.push(node);
                proof {
                    let after = self.files@;
                    let n = before.len() as int;
                    assert(distinct_paths(after)) by {
                        assert forall|a: int, b: int|
                            0 <= a < after.len() && 0 <= b < after.len() && a != b implies 
                            #[trigger] after[a].path@ != #[trigger] after[b].path@ by {
                            if a < n {
                                assert(before[a].path@ == after[a].path@);
                            }
                            if b < n {
                                assert(before[b].path@ == after[b].path@);
                            }
                        }
                    }
                    assert forall|p: Seq<u8>| has_file(after, p) <==> (has_file(before, p) || p
                        == path@) by {
                        if has_file(after, p) {
                            let j = choose|j: int| 0 <= j < after.len() && after[j].path@ == p;
                            if j < n {
                                assert(before[j].path@ == p);
                            }
                        }
                        if has_file(before, p) {
                            let j = choose|j: int| 0 <= j < before.len() && before[j].path@ == p;
                            assert(after[j].path@ == p);
                        }
                        if p == path@ {
                            assert(after[n].path@ == p);
                        }
                    }
                    assert forall|p: Seq<u8>| has_file(after, p) implies files_map(after)[p] == (
                    if p == path@ {
                        content@
                    } else {
                        files_map(before)[p]
                    }) by {
                        let j = choose|j: int| 0 <= j < after.len() && after[j].path@ == p;
                        lemma_files_map_at(after, j);
                        if j < n {
                            assert(before[j].path@ == p);
                            lemma_files_map_at(before, j);
                        }
                    }
                    assert(files_map(after) =~= files_map(before).insert(path@, content@));
                }
            },
        }
        Ok(())
    }

    /// Removes the file at `path`, if it is there.
    pub fn remove(&mut self, path: &Vec<u8>)
        requires
            old(self).wf(),
        ensures
            final(self).wf(),
            final(self).versioned() == old(self).versioned(),
            final(self)@ == old(self)@.remove(path@),
    {
        let ghost before = self.files@;
        match self.find(path) {
            Some(i) => {
                self.files.remove(i);
                proof {
                    let after = self.files@;
                    assert(after == before.remove(i as int));
                    assert forall|a: int| 0 <= a < after.len() implies #[trigger] after[a]
                        == before[if a < i { a } else { a + 1 }] by {}
                    assert(distinct_paths(after)) by {
                        assert forall|a: int, b: int|
                            0 <= a < after.len() && 0 <= b < after.len() && a != b implies 
                            #[trigger] after[a].path@ != #[trigger] after[b].path@ by {
                            let a0 = if a < i { a } else { a + 1 };
                            let b0 = if b < i { b } else { b + 1 };
                            assert(after[a] == before[a0]);
                            assert(after[b] == before[b0]);
                        }
                    }
                    assert forall|p: Seq<u8>| has_file(after, p) <==> (has_file(before, p) && p
                        != path@) by {
                        if has_file(after, p) {
                            let j = choose|j: int| 0 <= j < after.len() && after[j].path@ == p;
                            let j0 = if j < i { j } else { j + 1 };
                            assert(after[j] == before[j0]);
                            assert(before[j0].path@ == p);
                        }
                        if has_file(before, p) && p != path@ {
                            let j = choose|j: int| 0 <= j < before.len() && before[j].path@ == p;
                            let j1 = if j < i { j } else { j - 1 };
                            assert(after[j1] == before[j]);
                            assert(after[j1].path@ == p);
                        }
                    }
                    assert forall|p: Seq<u8>| has_file(after, p) implies files_map(after)[p]
                        == files_map(before)[p] by {
                        let j = choose|j: int| 0 <= j < after.len() && after[j].path@ == p;
                        let j0 = if j < i { j } else { j + 1 };
                        assert(after[j] == before[j0]);
                        lemma_files_map_at(after, j);
                        lemma_files_map_at(before, j0);
                    }
                    assert(files_map(after) =~= files_map(before).remove(path@));
                }
            },
            None => {
                assert(files_map(before) =~= files_map(before).remove(path@));
            },
        }
    }

    /// Carries out a change to the file at `path`. Fails, and changes
    /// nothing, where the change cannot be carried out.
    pub fn perform(&mut self, path: &Vec<u8>, change: &FileChange) -> (result: Result<
        (),
        ApplyError,
    >)
        requires
            old(self).wf(),
        ensures
            final(self).wf(),
            final(self).versioned() == old(self).versioned(),
            blocked(old(self)@, path@, change@) ==> result == Err::<(), ApplyError>(
                ApplyError::IoFailure,
            ) && final(self)@ == old(self)@,
            !blocked(old(self)@, path@, change@) ==> result == Ok::<(), ApplyError>(())
                && final(self)@ == perform(old(self)@, path@, change@),
    {
        match change {
            FileChange::Keep => Ok(()),
            FileChange::Write { content } => self.write(path, copy_bytes(content)),
            FileChange::Remove => {
                self.remove(path);
                Ok(())
            },
        }
    }
}

/// Under distinct paths, the map has as many entries as there are files.
pub proof fn lemma_files_map_count(files: Seq<FileNode>)
    requires
        distinct_paths(files),
    ensures
        files_map(files).dom().finite(),
        files_map(files).dom().len() == files.len(),
    decreases files.len(),
{
    if files.len() == 0 {
        assert(files_map(files).dom() =~= Set::<Seq<u8>>::empty());
    } else {
        let rest = files.drop_last();
        let last = files.last();
        lemma_files_map_count(rest);
        assert(!has_file(rest, last.path@)) by {
            if has_file(rest, last.path@) {
                let j = choose|j: int| 0 <= j < rest.len() && rest[j].path@ == last.path@;
                assert(files[j].path@ == files[files.len() - 1].path@);
            }
        }
        assert forall|p: Seq<u8>| has_file(files, p) <==> (has_file(rest, p) || p
            == last.path@) by {
            if has_file(files, p) {
                let j = choose|j: int| 0 <= j < files.len() && files[j].path@ == p;
                if j < rest.len() {
                    assert(rest[j].path@ == p);
                }
            }
            if has_file(rest, p) {
                let j = choose|j: int| 0 <= j < rest.len() && rest[j].path@ == p;
                assert(files[j].path@ == p);
            }
            if p == last.path@ {
                assert(files[files.len() - 1].path@ == p);
            }
        }
        assert(files_map(files).dom() =~= files_map(rest).dom().insert(last.path@));
    }
}

} // verus!
