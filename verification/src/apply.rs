//! Applying the entries of a task to a working tree, one after the other.
//!
//! Each entry is decided against the tree as the entries before it left it,
//! and its change is carried out before the next is looked at. A change that
//! cannot be carried out ends the apply at once; the entries before it stay
//! applied. Unresolved files do not end it: every entry is tried, and the
//! result names the paths that were left unresolved.

use vstd::prelude::*;
use crate::entry::{entries_view, DiffEntry, DiffEntryView};
use crate::error::{result_view, ApplyError, ApplyErrorView, ApplyOutcome, ApplyOutcomeView};
use crate::progress::{plan_spec, record_spec, verdict_spec, Progress, ProgressView};
use crate::reconcile::ReconciledView;
use crate::tree::{blocked, content_at, perform, WorkingTree};

verus! {

/// Where an apply stands: the tree, what was decided, and whether a change
/// could not be carried out.
pub struct RunView {
    pub tree: Map<Seq<u8>, Seq<u8>>,
    pub progress: ProgressView,
    pub failed: bool,
}

/// What is decided for `entry` where the apply stands at `state`.
pub open spec fn decision(state: RunView, entry: DiffEntryView, label: Seq<u8>) -> ReconciledView {
    plan_spec(state.progress, entry, content_at(state.tree, entry.path), label)
}

/// Where the apply stands after `entry`. An apply that has failed stays as
/// it is; one whose change cannot be carried out fails and changes nothing.
pub open spec fn step(state: RunView, entry: DiffEntryView, label: Seq<u8>) -> RunView {
    let outcome = decision(state, entry, label);
    if state.failed {
        state
    } else if blocked(state.tree, entry.path, outcome.change) {
        RunView { failed: true, ..state }
    } else {
        RunView {
            tree: perform(state.tree, entry.path, outcome.change),
            progress: record_spec(state.progress, entry.path, outcome),
            failed: false,
        }
    }
}

/// Where the apply of `entries` to `tree` stands after the first `k` of
/// them.
pub open spec fn state_after(
    tree: Map<Seq<u8>, Seq<u8>>,
    entries: Seq<DiffEntryView>,
    k: int,
    label: Seq<u8>,
) -> RunView
    decreases k,
{
    if k <= 0 || k > entries.len() {
        RunView { tree, progress: ProgressView::start(), failed: false }
    } else {
        step(state_after(tree, entries, k - 1, label), entries[k - 1], label)
    }
}

/// Where the apply of `entries` to `tree` ends.
pub open spec fn run_spec(
    tree: Map<Seq<u8>, Seq<u8>>,
    entries: Seq<DiffEntryView>,
    label: Seq<u8>,
) -> RunView {
    state_after(tree, entries, entries.len() as int, label)
}

/// The result of an apply that ended as `run` says.
pub open spec fn run_result(run: RunView) -> Result<ApplyOutcomeView, ApplyErrorView> {
    if run.failed {
        Err(ApplyErrorView::IoFailure)
    } else {
        verdict_spec(run.progress)
    }
}

/// An apply that has failed stands where it failed, whatever follows.
pub proof fn lemma_failure_ends_run(
    tree: Map<Seq<u8>, Seq<u8>>,
    entries: Seq<DiffEntryView>,
    k: int,
    n: int,
    label: Seq<u8>,
)
    requires
        0 <= k <= n <= entries.len(),
        state_after(tree, entries, k, label).failed,
    ensures
        state_after(tree, entries, n, label) == state_after(tree, entries, k, label),
    decreases n - k,
{
    if k < n {
        lemma_failure_ends_run(tree, entries, k, n - 1, label);
    }
}

/// Applies `entries` to `tree` in their order; `label` names the incoming
/// change in conflict blocks.
///
/// Succeeds where every entry went in cleanly. Where files were left
/// unresolved, every entry was still tried, and the error names those paths.
/// Where a change could not be carried out, the apply stopped there.
pub fn apply_entries(tree: &mut WorkingTree, entries: &Vec<DiffEntry>, label: &Vec<u8>) -> (result:
    Result<ApplyOutcome, ApplyError>)
    requires
        old(tree).wf(),
    ensures
        final(tree).wf(),
        final(tree).versioned() == old(tree).versioned(),
        final(tree)@ == run_spec(old(tree)@, entries_view(entries@), label@).tree,
        result_view(result) == run_result(run_spec(old(tree)@, entries_view(entries@), label@)),
{
    let ghost es = entries_view(entries@);
    let mut progress = Progress::new();
    let mut k: usize = 0;
    while k < entries.len()
        invariant
            k <= entries.len(),
            tree.wf(),
            tree.versioned() == old(tree).versioned(),
            es == entries_view(entries@),
            state_after(old(tree)@, es, k as int, label@) == (RunView {
                tree: tree@,
                progress: progress@,
                failed: false,
            }),
        decreases entries.len() - k,
    {
        let entry = &entries[k];
        assert(es[k as int] == entry@);
        let outcome = progress.plan(entry, tree.read(&entry.path), label);
        match tree.perform(&entry.path, &outcome.change) {
            Ok(()) => {},
            Err(error) => {
                proof {
                    lemma_failure_ends_run(old(tree)@, es, k + 1, es.len() as int, label@);
                }
                return Err(error);
            },
        }
        progress.record(&entry.path, &outcome);
        k += 1;
    }
    progress.finish()
}

} // verus!
