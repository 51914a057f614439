//! The course of one apply: what has been decided so far, and what follows
//! from it for the next entry and for the end.
//!
//! The entries are taken one by one. For each, `plan` says what is to be
//! done to its file; once that is done, `record` takes note of it. After the
//! last entry `finish` gives the result. Whoever holds the files performs
//! the changes between `plan` and `record`.

use vstd::prelude::*;
use crate::entry::{DiffEntry, DiffEntryView};
use crate::conflict::merge_conflict;
use crate::error::{
    result_view, ApplyError, ApplyErrorView, ApplyOutcome, ApplyOutcomeView,
};
use crate::path::{
    add_path, is_under_any, lemma_with_path_contains, lemma_with_path_no_duplicates, lies_under_any,
    paths_view, with_path,
};
use crate::reconcile::{
    content_view, reconcile, reconcile_spec, FileChange, FileChangeView, Reconciled,
    ReconciledView,
};

verus! {

/// What an apply has come to so far.
pub struct ProgressView {
    /// The paths of the entries that went in cleanly.
    pub applied: Seq<Seq<u8>>,
    /// The paths that were left unresolved.
    pub conflicted: Seq<Seq<u8>>,
    /// The paths of the files that were removed.
    pub removed: Seq<Seq<u8>>,
}

impl ProgressView {
    /// Nothing decided yet.
    pub open spec fn start() -> ProgressView {
        ProgressView { applied: Seq::empty(), conflicted: Seq::empty(), removed: Seq::empty() }
    }

    /// No list names a path twice.
    pub open spec fn distinct(self) -> bool {
        &&& self.applied.no_duplicates()
        &&& self.conflicted.no_duplicates()
        &&& self.removed.no_duplicates()
    }
}

/// What is to be done for `entry`, whose file holds `existing` or is not
/// there. An entry under a path that an earlier entry removed has lost what
/// it builds on: its file is left alone and counts as unresolved. Any other
/// entry is reconciled with its file.
pub open spec fn plan_spec(
    progress: ProgressView,
    entry: DiffEntryView,
    existing: Option<Seq<u8>>,
    label: Seq<u8>,
) -> ReconciledView {
    if lies_under_any(entry.path, progress.removed) {
        ReconciledView { change: FileChangeView::Keep, conflicted: true }
    } else {
        reconcile_spec(entry.operation, existing, label)
    }
}

/// The progress after the outcome for `path` has been carried out.
pub open spec fn record_spec(
    progress: ProgressView,
    path: Seq<u8>,
    outcome: ReconciledView,
) -> ProgressView {
    ProgressView {
        applied: if outcome.conflicted {
            progress.applied
        } else {
            with_path(progress.applied, path)
        },
        conflicted: if outcome.conflicted {
            with_path(progress.conflicted, path)
        } else {
            progress.conflicted
        },
        removed: if outcome.change is Remove {
            with_path(progress.removed, path)
        } else {
            progress.removed
        },
    }
}

/// The result of an apply that has tried every entry: success where no path
/// was left unresolved, else the unresolved paths.
pub open spec fn verdict_spec(progress: ProgressView) -> Result<ApplyOutcomeView, ApplyErrorView> {
    if progress.conflicted.len() == 0 {
        Ok(ApplyOutcomeView { applied: progress.applied, conflicted: Seq::empty() })
    } else {
        Err(ApplyErrorView::MergeConflict { paths: progress.conflicted })
    }
}

/// Taking note of an outcome keeps the lists free of repetitions.
pub proof fn lemma_record_keeps_distinct(
    progress: ProgressView,
    path: Seq<u8>,
    outcome: ReconciledView,
)
    requires
        progress.distinct(),
    ensures
        record_spec(progress, path, outcome).distinct(),
{
    lemma_with_path_no_duplicates(progress.applied, path);
    lemma_with_path_no_duplicates(progress.conflicted, path);
    lemma_with_path_no_duplicates(progress.removed, path);
}

/// Taking note of an outcome drops no path from a list, and puts the path
/// in the list that the outcome asks for.
pub proof fn lemma_record_keeps_paths(progress: ProgressView, path: Seq<u8>, outcome: ReconciledView)
    ensures
        forall|p: Seq<u8>|
            progress.applied.contains(p) ==> record_spec(progress, path, outcome).applied.contains(
                p,
            ),
        forall|p: Seq<u8>|
            progress.conflicted.contains(p) ==> record_spec(
                progress,
                path,
                outcome,
            ).conflicted.contains(p),
        outcome.conflicted ==> record_spec(progress, path, outcome).conflicted.contains(path),
        !outcome.conflicted ==> record_spec(progress, path, outcome).applied.contains(path),
{
    lemma_with_path_contains(progress.applied, path);
    lemma_with_path_contains(progress.conflicted, path);
}

/// The course of one apply.
#[derive(Debug, Clone)]
pub struct Progress {
    applied: Vec<Vec<u8>>,
    conflicted: Vec<Vec<u8>>,
    removed: Vec<Vec<u8>>,
}

impl View for Progress {
    type V = ProgressView;

    closed spec fn view(&self) -> ProgressView {
        ProgressView {
            applied: paths_view(self.applied@),
            conflicted: paths_view(self.conflicted@),
            removed: paths_view(self.removed@),
        }
    }
}

impl Progress {
    /// The beginning of an apply.
    pub fn new() -> (progress: Progress)
        ensures
            progress@ == ProgressView::start(),
    {
        let progress = Progress { applied: Vec::new(), conflicted: Vec::new(), removed: Vec::new() };
        assert(progress@.applied =~= Seq::<Seq<u8>>::empty());
        assert(progress@.conflicted =~= Seq::<Seq<u8>>::empty());
        assert(progress@.removed =~= Seq::<Seq<u8>>::empty());
        progress
    }

    /// Decides what is to be done for `entry`, whose file holds `existing`
    /// or is not there. Nothing is changed by this.
    pub fn plan(&self, entry: &DiffEntry, existing: Option<&Vec<u8>>, label: &Vec<u8>) -> (outcome:
        Reconciled)
        ensures
            outcome@ == plan_spec(self@, entry@, content_view(existing), label@),
    {
        if is_under_any(&entry.path, &self.removed) {
            Reconciled { change: FileChange::Keep, conflicted: true }
        } else {
            reconcile(&entry.operation, existing, label)
        }
    }

    /// Takes note that the outcome for `path` has been carried out.
    pub fn record(&mut self, path: &Vec<u8>, outcome: &Reconciled)
        ensures
            final(self)@ == record_spec(old(self)@, path@, outcome@),
    {
        if outcome.conflicted {
            add_path(&mut self.conflicted, path);
        } else {
            add_path(&mut self.applied, path);
        }
        match outcome.change {
            FileChange::Remove => {
                add_path(&mut self.removed, path);
            },
            _ => {},
        }
    }

    /// Ends an apply that has tried every entry.
    pub fn finish(self) -> (result: Result<ApplyOutcome, ApplyError>)
        ensures
            result_view(result) == verdict_spec(self@),
    {
        if self.conflicted.len() == 0 {
            let outcome = ApplyOutcome { applied: self.applied, conflicted: Vec::new() };
            assert(outcome@.conflicted =~= Seq::<Seq<u8>>::empty());
            Ok(outcome)
        } else {
            Err(merge_conflict(self.conflicted))
        }
    }
}

} // verus!
