//! The changes that a task asks for, one entry for each file.

use vstd::prelude::*;
use crate::text::{append_lines, join_lines, lines_view};

verus! {

/// One contiguous change within a file.
#[derive(Debug, Clone, PartialEq, Eq)]
pub struct Hunk {
    /// The index, counted from zero, of the line at which the hunk's region
    /// began in the file that the change was made from.
    pub anchor: usize,
    /// The lines of the region before the change, each with its terminator.
    pub before: Vec<Vec<u8>>,
    /// The lines of the region after the change, each with its terminator.
    pub after: Vec<Vec<u8>>,
}

/// What a hunk holds.
pub struct HunkView {
    pub anchor: nat,
    pub before: Seq<Seq<u8>>,
    pub after: Seq<Seq<u8>>,
}

impl View for Hunk {
    type V = HunkView;

    open spec fn view(&self) -> HunkView {
        HunkView {
            anchor: self.anchor as nat,
            before: lines_view(self.before@),
            after: lines_view(self.after@),
        }
    }
}

/// What is to happen to one file.
#[derive(Debug, Clone, PartialEq, Eq)]
pub enum Operation {
    /// The file comes into being with this content.
    Create { content: Vec<u8> },
    /// The file is changed, hunk by hunk, in the order given.
    Modify { hunks: Vec<Hunk> },
    /// The file, which is expected to hold this content, goes away.
    Delete { expected: Vec<u8> },
}

/// What an operation holds.
pub enum OperationView {
    Create { content: Seq<u8> },
    Modify { hunks: Seq<HunkView> },
    Delete { expected: Seq<u8> },
}

/// What a vector of hunks holds.
pub open spec fn hunks_view(hunks: Seq<Hunk>) -> Seq<HunkView> {
    Seq::new(hunks.len(), |i: int| hunks[i]@)
}

impl View for Operation {
    type V = OperationView;

    open spec fn view(&self) -> OperationView {
        match self {
            Operation::Create { content } => OperationView::Create { content: content@ },
            Operation::Modify { hunks } => OperationView::Modify { hunks: hunks_view(hunks@) },
            Operation::Delete { expected } => OperationView::Delete { expected: expected@ },
        }
    }
}

/// The change to one file: its path, relative to the root of the tree, and
/// the operation on it.
#[derive(Debug, Clone, PartialEq, Eq)]
pub struct DiffEntry {
    pub path: Vec<u8>,
    pub operation: Operation,
}

/// What an entry holds.
pub struct DiffEntryView {
    pub path: Seq<u8>,
    pub operation: OperationView,
}

impl View for DiffEntry {
    type V = DiffEntryView;

    open spec fn view(&self) -> DiffEntryView {
        DiffEntryView { path: self.path@, operation: self.operation@ }
    }
}

/// What a vector of entries holds.
pub open spec fn entries_view(entries: Seq<DiffEntry>) -> Seq<DiffEntryView> {
    Seq::new(entries.len(), |i: int| entries[i]@)
}

/// The text that the hunks from index `from` on would put in place, one
/// hunk's after the other's.
pub open spec fn incoming_text(hunks: Seq<HunkView>, from: int) -> Seq<u8>
    decreases hunks.len() - from,
{
    if from < 0 || from >= hunks.len() {
        Seq::empty()
    } else {
        join_lines(hunks[from].after) + incoming_text(hunks, from + 1)
    }
}

/// The text that the hunks from index `from` on expect to find, one hunk's
/// after the other's.
pub open spec fn outgoing_text(hunks: Seq<HunkView>, from: int) -> Seq<u8>
    decreases hunks.len() - from,
{
    if from < 0 || from >= hunks.len() {
        Seq::empty()
    } else {
        join_lines(hunks[from].before) + outgoing_text(hunks, from + 1)
    }
}

/// All that the hunks would put in place, one hunk's text after the other's.
pub fn collect_incoming(hunks: &Vec<Hunk>) -> (text: Vec<u8>)
    ensures
        text@ == incoming_text(hunks_view(hunks@), 0),
{
    let ghost hs = hunks_view(hunks@);
    let mut text: Vec<u8> = Vec::new();
    let mut k: usize = 0;
    assert(text@ + incoming_text(hs, 0) =~= incoming_text(hs, 0));
    while k < hunks.len()
        invariant
            k <= hunks.len(),
            hs == hunks_view(hunks@),
            incoming_text(hs, 0) == text@ + incoming_text(hs, k as int),
        decreases hunks.len() - k,
    {
        let ghost before = text@;
        let hunk = &hunks[k];
        append_lines(&mut text, &hunk.after, 0, hunk.after.len());
        proof {
            assert(lines_view(hunk.after@).subrange(0, hunk.after.len() as int) =~= hunk@.after);
            assert(hs[k as int] == hunk@);
            assert(text@ + incoming_text(hs, k + 1) =~= before + incoming_text(hs, k as int));
        }
        k += 1;
    }
    assert(text@ + incoming_text(hs, k as int) =~= text@);
    text
}

/// All that the hunks expect to find, one hunk's text after the other's.
pub fn collect_outgoing(hunks: &Vec<Hunk>) -> (text: Vec<u8>)
    ensures
        text@ == outgoing_text(hunks_view(hunks@), 0),
{
    let ghost hs = hunks_view(hunks@);
    let mut text: Vec<u8> = Vec::new();
    let mut k: usize = 0;
    assert(text@ + outgoing_text(hs, 0) =~= outgoing_text(hs, 0));
    while k < hunks.len()
        invariant
            k <= hunks.len(),
            hs == hunks_view(hunks@),
            outgoing_text(hs, 0) == text@ + outgoing_text(hs, k as int),
        decreases hunks.len() - k,
    {
        let ghost before = text@;
        let hunk = &hunks[k];
        append_lines(&mut text, &hunk.before, 0, hunk.before.len());
        proof {
            assert(lines_view(hunk.before@).subrange(0, hunk.before.len() as int)
                =~= hunk@.before);
            assert(hs[k as int] == hunk@);
            assert(text@ + outgoing_text(hs, k + 1) =~= before + outgoing_text(hs, k as int));
        }
        k += 1;
    }
    assert(text@ + outgoing_text(hs, k as int) =~= text@);
    text
}

} // verus!
