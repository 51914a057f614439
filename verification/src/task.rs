//! Applying a task to a working tree: the tree is looked at, the patch is
//! read, and its entries are applied.

use vstd::prelude::*;
use crate::apply::{apply_entries, run_result, run_spec};
use crate::error::{result_view, ApplyError, ApplyErrorView, ApplyOutcome, ApplyOutcomeView};
use crate::extract::{extract_entries, parse_patch};
use crate::tree::WorkingTree;

verus! {

/// A task: a change that was made elsewhere and is to be brought into a
/// working tree.
#[derive(Debug, Clone, PartialEq, Eq)]
pub struct TaskDescriptor {
    /// The name under which the change appears in conflict blocks.
    pub label: Vec<u8>,
    /// The change, as a patch in unified-diff form.
    pub diff: Vec<u8>,
}

/// What a task holds.
pub struct TaskView {
    pub label: Seq<u8>,
    pub diff: Seq<u8>,
}

impl View for TaskDescriptor {
    type V = TaskView;

    open spec fn view(&self) -> TaskView {
        TaskView { label: self.label@, diff: self.diff@ }
    }
}

/// How the apply of a task ends: the tree after it, and its result.
pub struct AppliedView {
    pub tree: Map<Seq<u8>, Seq<u8>>,
    pub result: Result<ApplyOutcomeView, ApplyErrorView>,
}

/// How the apply of `task` to `tree` ends. A tree that is not under version
/// control, and a patch that is malformed, end it before anything is
/// touched.
pub open spec fn apply_spec(tree: Map<Seq<u8>, Seq<u8>>, versioned: bool, task: TaskView) -> AppliedView {
    if !versioned {
        AppliedView { tree, result: Err(ApplyErrorView::NotAVersionedTree) }
    } else {
        match parse_patch(task.diff) {
            None => AppliedView { tree, result: Err(ApplyErrorView::MalformedDiff) },
            Some(entries) => AppliedView {
                tree: run_spec(tree, entries, task.label).tree,
                result: run_result(run_spec(tree, entries, task.label)),
            },
        }
    }
}

/// Whether the apply of `task` to the tree `before` can end with the tree
/// `after` and with `result`.
pub open spec fn is_outcome_of(
    before: Map<Seq<u8>, Seq<u8>>,
    versioned: bool,
    task: TaskView,
    after: Map<Seq<u8>, Seq<u8>>,
    result: Result<ApplyOutcomeView, ApplyErrorView>,
) -> bool {
    &&& after == apply_spec(before, versioned, task).tree
    &&& result == apply_spec(before, versioned, task).result
}

/// Two applies of the same task to trees with the same files end with the
/// same files and the same result.
pub proof fn lemma_apply_is_deterministic(
    before: Map<Seq<u8>, Seq<u8>>,
    versioned: bool,
    task: TaskView,
    first_after: Map<Seq<u8>, Seq<u8>>,
    first_result: Result<ApplyOutcomeView, ApplyErrorView>,
    second_after: Map<Seq<u8>, Seq<u8>>,
    second_result: Result<ApplyOutcomeView, ApplyErrorView>,
)
    requires
        is_outcome_of(before, versioned, task, first_after, first_result),
        is_outcome_of(before, versioned, task, second_after, second_result),
    ensures
        first_after == second_after,
        first_result == second_result,
{
}

/// Applies the patch of `task` to `tree`.
///
/// Fails with `NotAVersionedTree` where the tree is not under version
/// control, and with `MalformedDiff` where the patch cannot be read; in both
/// cases the tree is as it was. Else the entries of the patch are applied in
/// their order.
pub fn apply_diff_from_task(task: &TaskDescriptor, tree: &mut WorkingTree) -> (result: Result<
    ApplyOutcome,
    ApplyError,
>)
    requires
        old(tree).wf(),
    ensures
        final(tree).wf(),
        final(tree).versioned() == old(tree).versioned(),
        is_outcome_of(
            old(tree)@,
            old(tree).versioned(),
            task@,
            final(tree)@,
            result_view(result),
        ),
{
    if !tree.is_versioned() {
        return Err(ApplyError::NotAVersionedTree);
    }
    match extract_entries(&task.diff) {
        Err(error) => Err(error),
        Ok(entries) => apply_entries(tree, &entries, &task.label),
    }
}

} // verus!
