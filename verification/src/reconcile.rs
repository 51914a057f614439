//! What one entry does to the file it names.
//!
//! The decision rests on the operation and on what the file holds now; it
//! touches nothing. Its result says what is to be done to the file, and
//! whether the file is left unresolved.

use vstd::prelude::*;
use crate::conflict::{conflict_block, render_conflict};
use crate::entry::{collect_incoming, incoming_text, Operation, OperationView};
use crate::merge::{merge_hunks, merge_text};
use crate::text::{bytes_equal, copy_bytes};

verus! {

/// What is to be done to a file.
#[derive(Debug, Clone, PartialEq, Eq)]
pub enum FileChange {
    /// The file stays as it is.
    Keep,
    /// The file is written, whole, with this content.
    Write { content: Vec<u8> },
    /// The file is removed.
    Remove,
}

/// What a change holds.
pub enum FileChangeView {
    Keep,
    Write { content: Seq<u8> },
    Remove,
}

impl View for FileChange {
    type V = FileChangeView;

    open spec fn view(&self) -> FileChangeView {
        match self {
            FileChange::Keep => FileChangeView::Keep,
            FileChange::Write { content } => FileChangeView::Write { content: content@ },
            FileChange::Remove => FileChangeView::Remove,
        }
    }
}

/// The outcome of reconciling one entry with its file.
#[derive(Debug, Clone, PartialEq, Eq)]
pub struct Reconciled {
    /// What is to be done to the file.
    pub change: FileChange,
    /// Whether the file is left with a conflict.
    pub conflicted: bool,
}

/// What an outcome holds.
pub struct ReconciledView {
    pub change: FileChangeView,
    pub conflicted: bool,
}

impl View for Reconciled {
    type V = ReconciledView;

    open spec fn view(&self) -> ReconciledView {
        ReconciledView { change: self.change@, conflicted: self.conflicted }
    }
}

/// What a file holds, if it is there.
pub open spec fn content_view(existing: Option<&Vec<u8>>) -> Option<Seq<u8>> {
    match existing {
        Some(content) => Some(content@),
        None => None,
    }
}

/// The outcome of an operation on a file that holds `existing`, or is not
/// there.
///
/// A file is created where there is none, kept where it already holds the
/// new content, and set against the new content where it holds another. A
/// file is changed by reconciling the hunks with it; where it is missing,
/// all that the hunks bring is set against nothing. A file is removed where
/// it holds what is expected, left alone where it is already gone, and set
/// against nothing where it holds something else.
pub open spec fn reconcile_spec(
    operation: OperationView,
    existing: Option<Seq<u8>>,
    label: Seq<u8>,
) -> ReconciledView {
    match operation {
        OperationView::Create { content } => match existing {
            None => ReconciledView { change: FileChangeView::Write { content }, conflicted: false },
            Some(ours) => if ours == content {
                ReconciledView { change: FileChangeView::Keep, conflicted: false }
            } else {
                ReconciledView {
                    change: FileChangeView::Write { content: conflict_block(ours, content, label) },
                    conflicted: true,
                }
            },
        },
        OperationView::Modify { hunks } => match existing {
            None => ReconciledView {
                change: FileChangeView::Write {
                    content: conflict_block(Seq::empty(), incoming_text(hunks, 0), label),
                },
                conflicted: true,
            },
            Some(ours) => {
                let merged = merge_text(ours, hunks, label);
                if merged.text == ours && !merged.conflicted {
                    ReconciledView { change: FileChangeView::Keep, conflicted: false }
                } else {
                    ReconciledView {
                        change: FileChangeView::Write { content: merged.text },
                        conflicted: merged.conflicted,
                    }
                }
            },
        },
        OperationView::Delete { expected } => match existing {
            None => ReconciledView { change: FileChangeView::Keep, conflicted: false },
            Some(ours) => if ours == expected {
                ReconciledView { change: FileChangeView::Remove, conflicted: false }
            } else {
                ReconciledView {
                    change: FileChangeView::Write {
                        content: conflict_block(ours, Seq::empty(), label),
                    },
                    conflicted: true,
                }
            },
        },
    }
}

/// Decides what `operation` does to a file that holds `existing`, or is not
/// there; `label` names the incoming change in conflict blocks.
pub fn reconcile(operation: &Operation, existing: Option<&Vec<u8>>, label: &Vec<u8>) -> (outcome:
    Reconciled)
    ensures
        outcome@ == reconcile_spec(operation@, content_view(existing), label@),
{
    match operation {
        Operation::Create { content } => match existing {
            None => Reconciled {
                change: FileChange::Write { content: copy_bytes(content) },
                conflicted: false,
            },
            Some(ours) => if bytes_equal(ours, content) {
                Reconciled { change: FileChange::Keep, conflicted: false }
            } else {
                Reconciled {
                    change: FileChange::Write { content: render_conflict(ours, content, label) },
                    conflicted: true,
                }
            },
        },
        Operation::Modify { hunks } => match existing {
            None => {
                let nothing: Vec<u8> = Vec::new();
                let incoming = collect_incoming(hunks);
                assert(nothing@ =~= Seq::<u8>::empty());
                Reconciled {
                    change: FileChange::Write {
                        content: render_conflict(&nothing, &incoming, label),
                    },
                    conflicted: true,
                }
            },
            Some(ours) => {
                let merged = merge_hunks(ours, hunks, label);
                if !merged.conflicted && bytes_equal(&merged.text, ours) {
                    Reconciled { change: FileChange::Keep, conflicted: false }
                } else {
                    Reconciled {
                        change: FileChange::Write { content: merged.text },
                        conflicted: merged.conflicted,
                    }
                }
            },
        },
        Operation::Delete { expected } => match existing {
            None => Reconciled { change: FileChange::Keep, conflicted: false },
            Some(ours) => if bytes_equal(ours, expected) {
                Reconciled { change: FileChange::Remove, conflicted: false }
            } else {
                let nothing: Vec<u8> = Vec::new();
                assert(nothing@ =~= Seq::<u8>::empty());
                Reconciled {
                    change: FileChange::Write { content: render_conflict(ours, &nothing, label) },
                    conflicted: true,
                }
            },
        },
    }
}

} // verus!
