//! What holds of every apply.

use vstd::prelude::*;
use crate::apply::{
    decision, lemma_failure_ends_run, run_result, run_spec, state_after, step, RunView,
};
use crate::conflict::{
    closing_marker, has_markers, lemma_block_has_markers, lemma_occurs_in_middle, opening_marker,
    separator_marker,
};
use crate::entry::{incoming_text, DiffEntryView, HunkView, OperationView};
use crate::error::{ApplyErrorView, ApplyOutcomeView};
use crate::merge::{gap, merge_from, merge_text, place, region_text};
use crate::path::{lies_under, lies_under_any, with_path};
use crate::progress::{lemma_record_keeps_distinct, lemma_record_keeps_paths};
use crate::reconcile::{reconcile_spec, FileChangeView, ReconciledView};
use crate::text::{join_lines, lines_of};
use crate::tree::{blocked, content_at, directory_in, obstructed, perform};

verus! {

/// A file in which a hunk was left unresolved holds the three markers.
pub proof fn lemma_unresolved_hunks_leave_markers(
    lines: Seq<Seq<u8>>,
    hunks: Seq<HunkView>,
    k: int,
    cursor: int,
    prev_end: int,
    label: Seq<u8>,
)
    requires
        0 <= k,
        merge_from(lines, hunks, k, cursor, prev_end, label).conflicted,
    ensures
        has_markers(merge_from(lines, hunks, k, cursor, prev_end, label).text, label),
    decreases hunks.len() - k,
{
    if k < hunks.len() {
        let hunk = hunks[k];
        let placement = place(lines, hunk, cursor, cursor + gap(hunk.anchor as int, prev_end));
        let next = placement.at() + placement.taken(hunk);
        let rest = merge_from(lines, hunks, k + 1, next, (hunk.anchor + hunk.before.len()) as int, label);
        let lead = join_lines(lines.subrange(cursor, placement.at()));
        let region = region_text(lines, hunk, placement, label);
        if placement is Conflict {
            let at = placement->Conflict_at;
            let len = placement->len;
            lemma_block_has_markers(
                join_lines(lines.subrange(at, at + len)),
                join_lines(hunk.after),
                label,
            );
            lemma_markers_in_middle(lead, region, rest.text, label);
        } else {
            lemma_unresolved_hunks_leave_markers(
                lines,
                hunks,
                k + 1,
                next,
                (hunk.anchor + hunk.before.len()) as int,
                label,
            );
            lemma_markers_in_middle(lead + region, rest.text, Seq::empty(), label);
            assert(lead + region + rest.text + Seq::<u8>::empty() =~= lead + region + rest.text);
        }
    }
}

/// A text that holds the markers in its middle part holds them.
pub proof fn lemma_markers_in_middle(left: Seq<u8>, middle: Seq<u8>, right: Seq<u8>, label: Seq<u8>)
    requires
        has_markers(middle, label),
    ensures
        has_markers(left + middle + right, label),
{
    lemma_occurs_in_middle(opening_marker(), left, middle, right);
    lemma_occurs_in_middle(separator_marker(), left, middle, right);
    lemma_occurs_in_middle(closing_marker(label), left, middle, right);
}

/// An entry that is reconciled with its file and leaves it unresolved writes
/// the file, and what it writes holds the opening marker, the separator and
/// the closing marker.
pub proof fn lemma_conflict_leaves_markers(
    operation: OperationView,
    existing: Option<Seq<u8>>,
    label: Seq<u8>,
)
    requires
        reconcile_spec(operation, existing, label).conflicted,
    ensures
        reconcile_spec(operation, existing, label).change is Write,
        has_markers(reconcile_spec(operation, existing, label).change->content, label),
{
    match operation {
        OperationView::Create { content } => {
            lemma_block_has_markers(existing.unwrap(), content, label);
        },
        OperationView::Modify { hunks } => {
            match existing {
                None => {
                    lemma_block_has_markers(
                        Seq::empty(),
                        incoming_text(hunks, 0),
                        label,
                    );
                },
                Some(ours) => {
                    lemma_unresolved_hunks_leave_markers(lines_of(ours), hunks, 0, 0, 0, label);
                },
            }
        },
        OperationView::Delete { expected } => {
            lemma_block_has_markers(existing.unwrap(), Seq::empty(), label);
        },
    }
}

/// A file that is there and holds something else than an entry creates, or
/// than it expects to remove, is left unresolved.
pub proof fn lemma_divergence_conflicts(operation: OperationView, ours: Seq<u8>, label: Seq<u8>)
    requires
        operation matches OperationView::Create { content } ==> content != ours,
        operation matches OperationView::Delete { expected } ==> expected != ours,
        operation matches OperationView::Modify { hunks } ==> merge_text(
            ours,
            hunks,
            label,
        ).conflicted,
    ensures
        reconcile_spec(operation, Some(ours), label).conflicted,
{
}

/// No two entries name the same path.
pub open spec fn distinct_entry_paths(entries: Seq<DiffEntryView>) -> bool {
    forall|i: int, j: int|
        0 <= i < entries.len() && 0 <= j < entries.len() && i != j ==> (#[trigger] entries[i]).path
            != (#[trigger] entries[j]).path
}

/// What a file holds after a change, where it held `existing` before.
pub open spec fn content_after(change: FileChangeView, existing: Option<Seq<u8>>) -> Option<
    Seq<u8>,
> {
    match change {
        FileChangeView::Keep => existing,
        FileChangeView::Write { content } => Some(content),
        FileChangeView::Remove => None,
    }
}

/// An entry leaves its file either as it was or, whole, as was decided for
/// it: nothing in between.
pub proof fn lemma_step_settles_file(state: RunView, entry: DiffEntryView, label: Seq<u8>)
    ensures
        content_at(step(state, entry, label).tree, entry.path) == content_at(
            state.tree,
            entry.path,
        ) || content_at(step(state, entry, label).tree, entry.path) == content_after(
            decision(state, entry, label).change,
            content_at(state.tree, entry.path),
        ),
        !step(state, entry, label).failed ==> content_at(
            step(state, entry, label).tree,
            entry.path,
        ) == content_after(
            decision(state, entry, label).change,
            content_at(state.tree, entry.path),
        ),
{
}

/// An entry changes no file but its own.
pub proof fn lemma_step_frame(state: RunView, entry: DiffEntryView, label: Seq<u8>, other: Seq<u8>)
    requires
        other != entry.path,
    ensures
        content_at(step(state, entry, label).tree, other) == content_at(state.tree, other),
{
}

/// A file that none of the entries from index `from` up to `to` names is
/// after them as it was before them.
pub proof fn lemma_untouched_between(
    tree: Map<Seq<u8>, Seq<u8>>,
    entries: Seq<DiffEntryView>,
    from: int,
    to: int,
    path: Seq<u8>,
    label: Seq<u8>,
)
    requires
        0 <= from <= to <= entries.len(),
        forall|i: int| from <= i < to ==> (#[trigger] entries[i]).path != path,
    ensures
        content_at(state_after(tree, entries, to, label).tree, path) == content_at(
            state_after(tree, entries, from, label).tree,
            path,
        ),
    decreases to - from,
{
    if from < to {
        lemma_untouched_between(tree, entries, from, to - 1, path, label);
        lemma_step_frame(state_after(tree, entries, to - 1, label), entries[to - 1], label, path);
    }
}

/// An apply that did not fail had not failed at any entry.
pub proof fn lemma_sound_run_never_failed(
    tree: Map<Seq<u8>, Seq<u8>>,
    entries: Seq<DiffEntryView>,
    k: int,
    label: Seq<u8>,
)
    requires
        0 <= k <= entries.len(),
        !run_spec(tree, entries, label).failed,
    ensures
        !state_after(tree, entries, k, label).failed,
{
    if state_after(tree, entries, k, label).failed {
        lemma_failure_ends_run(tree, entries, k, entries.len() as int, label);
    }
}

/// The lists of applied and of unresolved paths only grow in the course of
/// an apply.
pub proof fn lemma_paths_stay_listed(
    tree: Map<Seq<u8>, Seq<u8>>,
    entries: Seq<DiffEntryView>,
    from: int,
    to: int,
    path: Seq<u8>,
    label: Seq<u8>,
)
    requires
        0 <= from <= to <= entries.len(),
    ensures
        state_after(tree, entries, from, label).progress.conflicted.contains(path) ==> state_after(
            tree,
            entries,
            to,
            label,
        ).progress.conflicted.contains(path),
        state_after(tree, entries, from, label).progress.applied.contains(path) ==> state_after(
            tree,
            entries,
            to,
            label,
        ).progress.applied.contains(path),
    decreases to - from,
{
    if from < to {
        lemma_paths_stay_listed(tree, entries, from, to - 1, path, label);
        let state = state_after(tree, entries, to - 1, label);
        let entry = entries[to - 1];
        lemma_record_keeps_paths(state.progress, entry.path, decision(state, entry, label));
    }
}

/// Interrupted after any number of entries, an apply of entries with
/// distinct paths leaves each file either as it was before the apply or as
/// it is after the whole of it.
pub proof fn lemma_files_are_whole(
    tree: Map<Seq<u8>, Seq<u8>>,
    entries: Seq<DiffEntryView>,
    k: int,
    path: Seq<u8>,
    label: Seq<u8>,
)
    requires
        distinct_entry_paths(entries),
        0 <= k <= entries.len(),
    ensures
        content_at(state_after(tree, entries, k, label).tree, path) == content_at(tree, path)
            || content_at(state_after(tree, entries, k, label).tree, path) == content_at(
            run_spec(tree, entries, label).tree,
            path,
        ),
{
    let n = entries.len() as int;
    if exists|i: int| 0 <= i < k && (#[trigger] entries[i]).path == path {
        let i = choose|i: int| 0 <= i < k && (#[trigger] entries[i]).path == path;
        assert forall|j: int| i + 1 <= j < n implies (#[trigger] entries[j]).path != path by {
            assert(entries[i].path == path);
        }
        lemma_untouched_between(tree, entries, i + 1, k, path, label);
        lemma_untouched_between(tree, entries, i + 1, n, path, label);
    } else {
        lemma_untouched_between(tree, entries, 0, k, path, label);
    }
}

/// An entry that left its file unresolved makes the apply end with the
/// unresolved paths, its own among them, unless a change could not be
/// carried out.
pub proof fn lemma_conflict_fails_apply(
    tree: Map<Seq<u8>, Seq<u8>>,
    entries: Seq<DiffEntryView>,
    i: int,
    label: Seq<u8>,
)
    requires
        0 <= i < entries.len(),
        !run_spec(tree, entries, label).failed,
        decision(state_after(tree, entries, i, label), entries[i], label).conflicted,
    ensures
        run_spec(tree, entries, label).progress.conflicted.contains(entries[i].path),
        run_result(run_spec(tree, entries, label)) == Err::<ApplyOutcomeView, ApplyErrorView>(
            ApplyErrorView::MergeConflict {
                paths: run_spec(tree, entries, label).progress.conflicted,
            },
        ),
{
    let state = state_after(tree, entries, i, label);
    lemma_sound_run_never_failed(tree, entries, i, label);
    lemma_sound_run_never_failed(tree, entries, i + 1, label);
    lemma_record_keeps_paths(state.progress, entries[i].path, decision(state, entries[i], label));
    lemma_paths_stay_listed(tree, entries, i + 1, entries.len() as int, entries[i].path, label);
}

/// In an apply of entries with distinct paths in which every change could
/// be carried out, an entry whose path is not among the unresolved ones has
/// gone in cleanly: its file is as the entry alone, reconciled with the file
/// as it was before the apply, leaves it, whatever became of the others.
pub proof fn lemma_clean_entries_are_applied(
    tree: Map<Seq<u8>, Seq<u8>>,
    entries: Seq<DiffEntryView>,
    i: int,
    label: Seq<u8>,
)
    requires
        distinct_entry_paths(entries),
        0 <= i < entries.len(),
        !run_spec(tree, entries, label).failed,
        !run_spec(tree, entries, label).progress.conflicted.contains(entries[i].path),
    ensures
        !reconcile_spec(
            entries[i].operation,
            content_at(tree, entries[i].path),
            label,
        ).conflicted,
        content_at(run_spec(tree, entries, label).tree, entries[i].path) == content_after(
            reconcile_spec(entries[i].operation, content_at(tree, entries[i].path), label).change,
            content_at(tree, entries[i].path),
        ),
        run_spec(tree, entries, label).progress.applied.contains(entries[i].path),
{
    let n = entries.len() as int;
    let entry = entries[i];
    let state = state_after(tree, entries, i, label);
    let made = decision(state, entry, label);
    lemma_sound_run_never_failed(tree, entries, i, label);
    lemma_sound_run_never_failed(tree, entries, i + 1, label);
    lemma_record_keeps_paths(state.progress, entry.path, made);
    lemma_paths_stay_listed(tree, entries, i + 1, n, entry.path, label);
    assert(!made.conflicted);
    assert forall|j: int| 0 <= j < i implies (#[trigger] entries[j]).path != entry.path by {
        assert(entries[i].path == entry.path);
    }
    assert forall|j: int| i + 1 <= j < n implies (#[trigger] entries[j]).path != entry.path by {
        assert(entries[i].path == entry.path);
    }
    lemma_untouched_between(tree, entries, 0, i, entry.path, label);
    lemma_untouched_between(tree, entries, i + 1, n, entry.path, label);
    lemma_step_settles_file(state, entry, label);
}

/// A task whose only entry creates a file that is not there, at a path that
/// is free, succeeds: the file holds the entry's content, every directory
/// above it is there, and all other files are as they were. The same holds
/// where the file is there already with that content.
pub proof fn lemma_creation_succeeds(
    tree: Map<Seq<u8>, Seq<u8>>,
    path: Seq<u8>,
    content: Seq<u8>,
    label: Seq<u8>,
)
    requires
        content_at(tree, path) == Some(content) || (content_at(tree, path).is_none() && !obstructed(
            tree,
            path,
        )),
    ensures
        ({
            let entry = DiffEntryView { path, operation: OperationView::Create { content } };
            let run = run_spec(tree, seq![entry], label);
            &&& run.tree == tree.insert(path, content)
            &&& run_result(run) == Ok::<ApplyOutcomeView, ApplyErrorView>(
                ApplyOutcomeView { applied: seq![path], conflicted: Seq::empty() },
            )
            &&& forall|dir: Seq<u8>| lies_under(path, dir) ==> directory_in(run.tree, dir)
        }),
{
    let entry = DiffEntryView { path, operation: OperationView::Create { content } };
    let entries = seq![entry];
    let start = state_after(tree, entries, 0, label);
    let run = run_spec(tree, entries, label);
    assert(run == step(start, entries[0], label));
    assert(!lies_under_any(path, start.progress.removed));
    assert(run.tree =~= tree.insert(path, content));
    assert(run.progress.applied =~= seq![path]);
    assert forall|dir: Seq<u8>| lies_under(path, dir) implies directory_in(run.tree, dir) by {
        assert(run.tree.contains_key(path));
    }
}

/// The paths of the first `k` entries, each once, in the order in which
/// they first come up.
pub open spec fn paths_in_order(entries: Seq<DiffEntryView>, k: int) -> Seq<Seq<u8>>
    decreases k,
{
    if k <= 0 || k > entries.len() {
        Seq::empty()
    } else {
        with_path(paths_in_order(entries, k - 1), entries[k - 1].path)
    }
}

/// Whether a file that holds `existing`, or is not there, already is as the
/// operation wants it: the operation keeps it, and has no conflict with it.
pub open spec fn steady(operation: OperationView, existing: Option<Seq<u8>>, label: Seq<u8>) -> bool {
    reconcile_spec(operation, existing, label) == (ReconciledView {
        change: FileChangeView::Keep,
        conflicted: false,
    })
}

/// A file that was created or removed cleanly is, after that, as the
/// operation wants it.
pub proof fn lemma_whole_file_operations_settle(
    operation: OperationView,
    existing: Option<Seq<u8>>,
    label: Seq<u8>,
)
    requires
        !(operation is Modify),
        !reconcile_spec(operation, existing, label).conflicted,
    ensures
        steady(
            operation,
            content_after(reconcile_spec(operation, existing, label).change, existing),
            label,
        ),
{
}

/// An apply that succeeds has, after each entry, no unresolved path, and
/// the paths of the entries so far as its applied paths.
pub proof fn lemma_success_lists_every_path(
    tree: Map<Seq<u8>, Seq<u8>>,
    entries: Seq<DiffEntryView>,
    k: int,
    label: Seq<u8>,
)
    requires
        0 <= k <= entries.len(),
        run_result(run_spec(tree, entries, label)) is Ok,
    ensures
        !state_after(tree, entries, k, label).failed,
        state_after(tree, entries, k, label).progress.conflicted.len() == 0,
        state_after(tree, entries, k, label).progress.applied == paths_in_order(entries, k),
        k > 0 ==> !decision(
            state_after(tree, entries, k - 1, label),
            entries[k - 1],
            label,
        ).conflicted,
    decreases k,
{
    let n = entries.len() as int;
    let run = run_spec(tree, entries, label);
    lemma_sound_run_never_failed(tree, entries, k, label);
    if k > 0 {
        lemma_success_lists_every_path(tree, entries, k - 1, label);
        let state = state_after(tree, entries, k - 1, label);
        let entry = entries[k - 1];
        let made = decision(state, entry, label);
        lemma_record_keeps_paths(state.progress, entry.path, made);
        lemma_paths_stay_listed(tree, entries, k, n, entry.path, label);
        if made.conflicted {
            assert(run.progress.conflicted.contains(entry.path));
        }
    }
}

/// Where every entry finds its file as it wants it, the apply changes
/// nothing and succeeds.
pub proof fn lemma_steady_run_keeps_tree(
    tree: Map<Seq<u8>, Seq<u8>>,
    entries: Seq<DiffEntryView>,
    k: int,
    label: Seq<u8>,
)
    requires
        0 <= k <= entries.len(),
        forall|i: int|
            0 <= i < entries.len() ==> steady(
                (#[trigger] entries[i]).operation,
                content_at(tree, entries[i].path),
                label,
            ),
    ensures
        state_after(tree, entries, k, label).tree == tree,
        !state_after(tree, entries, k, label).failed,
        state_after(tree, entries, k, label).progress.conflicted == Seq::<Seq<u8>>::empty(),
        state_after(tree, entries, k, label).progress.removed == Seq::<Seq<u8>>::empty(),
    decreases k,
{
    if k > 0 {
        lemma_steady_run_keeps_tree(tree, entries, k - 1, label);
        let state = state_after(tree, entries, k - 1, label);
        let entry = entries[k - 1];
        assert(!lies_under_any(entry.path, state.progress.removed));
        assert(steady(entry.operation, content_at(tree, entry.path), label));
    }
}

/// Applying the entries of a successful apply once more, to the tree as the
/// apply left it, changes no file and succeeds with the same result,
/// provided that no two entries name the same path and that each file an
/// entry modified is as that entry wants it: no hunk finds the region it
/// replaces once again. Entries that create or remove a file always leave it
/// so.
pub proof fn lemma_reapply_changes_nothing(
    tree: Map<Seq<u8>, Seq<u8>>,
    entries: Seq<DiffEntryView>,
    label: Seq<u8>,
)
    requires
        distinct_entry_paths(entries),
        run_result(run_spec(tree, entries, label)) is Ok,
        forall|i: int|
            0 <= i < entries.len() && (#[trigger] entries[i]).operation is Modify ==> steady(
                entries[i].operation,
                content_at(run_spec(tree, entries, label).tree, entries[i].path),
                label,
            ),
    ensures
        run_spec(run_spec(tree, entries, label).tree, entries, label).tree == run_spec(
            tree,
            entries,
            label,
        ).tree,
        run_result(run_spec(run_spec(tree, entries, label).tree, entries, label)) == run_result(
            run_spec(tree, entries, label),
        ),
{
    let n = entries.len() as int;
    let run = run_spec(tree, entries, label);
    lemma_success_lists_every_path(tree, entries, n, label);
    assert forall|i: int| 0 <= i < n implies steady(
        (#[trigger] entries[i]).operation,
        content_at(run.tree, entries[i].path),
        label,
    ) by {
        if !(entries[i].operation is Modify) {
            lemma_clean_entries_are_applied(tree, entries, i, label);
            lemma_whole_file_operations_settle(
                entries[i].operation,
                content_at(tree, entries[i].path),
                label,
            );
        }
    }
    lemma_steady_run_keeps_tree(run.tree, entries, n, label);
    lemma_success_lists_every_path(run.tree, entries, n, label);
}

/// At no point of an apply does one of its lists name a path twice.
pub proof fn lemma_lists_name_no_path_twice(
    tree: Map<Seq<u8>, Seq<u8>>,
    entries: Seq<DiffEntryView>,
    k: int,
    label: Seq<u8>,
)
    requires
        0 <= k <= entries.len(),
    ensures
        state_after(tree, entries, k, label).progress.distinct(),
    decreases k,
{
    if k > 0 {
        lemma_lists_name_no_path_twice(tree, entries, k - 1, label);
        let state = state_after(tree, entries, k - 1, label);
        let entry = entries[k - 1];
        lemma_record_keeps_distinct(state.progress, entry.path, decision(state, entry, label));
    }
}

/// Whether no file of the tree lies under another: no path is a file and a
/// directory at once.
pub open spec fn consistent(tree: Map<Seq<u8>, Seq<u8>>) -> bool {
    forall|file: Seq<u8>, dir: Seq<u8>|
        #![trigger tree.contains_key(file), tree.contains_key(dir)]
        tree.contains_key(file) && tree.contains_key(dir) ==> !lies_under(file, dir)
}

/// A change that can be carried out leaves no file under another.
pub proof fn lemma_change_keeps_tree_consistent(
    tree: Map<Seq<u8>, Seq<u8>>,
    path: Seq<u8>,
    change: FileChangeView,
)
    requires
        consistent(tree),
        !blocked(tree, path, change),
    ensures
        consistent(perform(tree, path, change)),
{
    let after = perform(tree, path, change);
    assert forall|file: Seq<u8>, dir: Seq<u8>|
        #![trigger after.contains_key(file), after.contains_key(dir)]
        after.contains_key(file) && after.contains_key(dir) implies !lies_under(file, dir) by {
        if lies_under(file, dir) {
            if file != path {
                assert(tree.contains_key(file));
            }
            if dir != path {
                assert(tree.contains_key(dir));
            }
        }
    }
}

/// An apply to a tree in which no file lies under another leaves such a
/// tree, at whatever entry it is interrupted.
pub proof fn lemma_apply_keeps_tree_consistent(
    tree: Map<Seq<u8>, Seq<u8>>,
    entries: Seq<DiffEntryView>,
    k: int,
    label: Seq<u8>,
)
    requires
        consistent(tree),
        0 <= k <= entries.len(),
    ensures
        consistent(state_after(tree, entries, k, label).tree),
    decreases k,
{
    if k > 0 {
        lemma_apply_keeps_tree_consistent(tree, entries, k - 1, label);
        let state = state_after(tree, entries, k - 1, label);
        let entry = entries[k - 1];
        let made = decision(state, entry, label);
        if !state.failed && !blocked(state.tree, entry.path, made.change) {
            lemma_change_keeps_tree_consistent(state.tree, entry.path, made.change);
        }
    }
}

/// A task whose only entry finds its file holding something else than it
/// assumes fails with a merge conflict that names the file, and leaves the
/// file with the opening marker, the separator and the closing marker in
/// it.
pub proof fn lemma_divergent_file_fails_apply(
    tree: Map<Seq<u8>, Seq<u8>>,
    entry: DiffEntryView,
    label: Seq<u8>,
)
    requires
        consistent(tree),
        tree.contains_key(entry.path),
        entry.operation matches OperationView::Create { content } ==> content != tree[entry.path],
        entry.operation matches OperationView::Delete { expected } ==> expected
            != tree[entry.path],
        entry.operation matches OperationView::Modify { hunks } ==> merge_text(
            tree[entry.path],
            hunks,
            label,
        ).conflicted,
    ensures
        ({
            let run = run_spec(tree, seq![entry], label);
            &&& run_result(run) == Err::<ApplyOutcomeView, ApplyErrorView>(
                ApplyErrorView::MergeConflict { paths: seq![entry.path] },
            )
            &&& run.tree.contains_key(entry.path)
            &&& has_markers(run.tree[entry.path], label)
        }),
{
    let entries = seq![entry];
    let start = state_after(tree, entries, 0, label);
    let run = run_spec(tree, entries, label);
    let ours = tree[entry.path];
    assert(run == step(start, entries[0], label));
    assert(!lies_under_any(entry.path, start.progress.removed));
    lemma_divergence_conflicts(entry.operation, ours, label);
    lemma_conflict_leaves_markers(entry.operation, Some(ours), label);
    assert(!obstructed(tree, entry.path)) by {
        if obstructed(tree, entry.path) {
            let other = choose|other: Seq<u8>|
                #[trigger] tree.contains_key(other) && (lies_under(entry.path, other)
                    || lies_under(other, entry.path));
            assert(tree.contains_key(other) && tree.contains_key(entry.path));
        }
    }
    assert(run.progress.conflicted =~= seq![entry.path]);
}

} // verus!
