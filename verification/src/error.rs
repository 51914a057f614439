//! How an apply ends.

use vstd::prelude::*;
use crate::path::paths_view;

verus! {

/// Why an apply did not succeed.
#[derive(Debug, Clone, PartialEq, Eq)]
pub enum ApplyError {
    /// The target directory is not in a version-controlled working tree.
    /// Nothing was touched.
    NotAVersionedTree,
    /// The patch could not be read as a list of consistent entries. Nothing
    /// was touched.
    MalformedDiff,
    /// A file operation failed for a reason other than the file's content.
    /// The entries before it stay applied; those after it were not tried.
    IoFailure,
    /// Every entry was tried, and these paths were left unresolved. All
    /// other files are as the entries want them.
    MergeConflict { paths: Vec<Vec<u8>> },
}

/// What an error holds.
pub enum ApplyErrorView {
    NotAVersionedTree,
    MalformedDiff,
    IoFailure,
    MergeConflict { paths: Seq<Seq<u8>> },
}

impl View for ApplyError {
    type V = ApplyErrorView;

    open spec fn view(&self) -> ApplyErrorView {
        match self {
            ApplyError::NotAVersionedTree => ApplyErrorView::NotAVersionedTree,
            ApplyError::MalformedDiff => ApplyErrorView::MalformedDiff,
            ApplyError::IoFailure => ApplyErrorView::IoFailure,
            ApplyError::MergeConflict { paths } => ApplyErrorView::MergeConflict {
                paths: paths_view(paths@),
            },
        }
    }
}

impl ApplyError {
    /// Whether the error stands for unresolved files, which ask for the
    /// user's hand, and not for a failure of the apply itself.
    pub fn is_merge_conflict(&self) -> (conflict: bool)
        ensures
            conflict == (self@ is MergeConflict),
    {
        match self {
            ApplyError::MergeConflict { .. } => true,
            _ => false,
        }
    }
}

/// The paths that an apply dealt with: those whose entries went in cleanly,
/// and those left unresolved. Each list is in the order in which the paths
/// first came up, and names no path twice.
#[derive(Debug, Clone, PartialEq, Eq)]
pub struct ApplyOutcome {
    pub applied: Vec<Vec<u8>>,
    pub conflicted: Vec<Vec<u8>>,
}

/// What an outcome holds.
pub struct ApplyOutcomeView {
    pub applied: Seq<Seq<u8>>,
    pub conflicted: Seq<Seq<u8>>,
}

impl View for ApplyOutcome {
    type V = ApplyOutcomeView;

    open spec fn view(&self) -> ApplyOutcomeView {
        ApplyOutcomeView {
            applied: paths_view(self.applied@),
            conflicted: paths_view(self.conflicted@),
        }
    }
}

/// What the result of an apply holds.
pub open spec fn result_view(result: Result<ApplyOutcome, ApplyError>) -> Result<
    ApplyOutcomeView,
    ApplyErrorView,
> {
    match result {
        Ok(outcome) => Ok(outcome@),
        Err(error) => Err(error@),
    }
}

} // verus!
