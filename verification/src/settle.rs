//! When a file that was modified is as its entry wants it.
//!
//! Applying the hunks of an entry a second time changes nothing where, the
//! first time, every hunk was found where it was expected, and where no hunk
//! finds the region that it replaced once more in the place of what it put
//! there.

use vstd::prelude::*;
use vstd::seq_lib::lemma_flatten_concat;
use crate::entry::{HunkView, OperationView};
use crate::laws::steady;
use crate::merge::{gap, lemma_place_bounds, matches_at, merge_from, merge_text, place};
use crate::text::{
    is_line, join_lines, lemma_lines_from_terminated, lemma_lines_of_joined, lines_of, terminated_lines,
    NEWLINE,
};

verus! {

/// The lines that reconciling the hunks from index `k` on leaves, from the
/// cursor on, where each hunk is placed.
pub open spec fn merged_lines_from(
    lines: Seq<Seq<u8>>,
    hunks: Seq<HunkView>,
    k: int,
    cursor: int,
    prev_end: int,
) -> Seq<Seq<u8>>
    decreases hunks.len() - k,
{
    if k < 0 || k >= hunks.len() {
        lines.subrange(cursor, lines.len() as int)
    } else {
        let hunk = hunks[k];
        let placement = place(lines, hunk, cursor, cursor + gap(hunk.anchor as int, prev_end));
        lines.subrange(cursor, placement.at()) + hunk.after + merged_lines_from(
            lines,
            hunks,
            k + 1,
            placement.at() + placement.taken(hunk),
            (hunk.anchor + hunk.before.len()) as int,
        )
    }
}

/// Whether every hunk from index `k` on is found where it is expected: the
/// region it replaces, or the one it puts in place, stands there.
pub open spec fn placed_as_expected(
    lines: Seq<Seq<u8>>,
    hunks: Seq<HunkView>,
    k: int,
    cursor: int,
    prev_end: int,
) -> bool
    decreases hunks.len() - k,
{
    k < 0 || k >= hunks.len() || {
        let hunk = hunks[k];
        let expected = cursor + gap(hunk.anchor as int, prev_end);
        let placement = place(lines, hunk, cursor, expected);
        &&& matches_at(lines, hunk.before, expected) || matches_at(lines, hunk.after, expected)
        &&& placed_as_expected(
            lines,
            hunks,
            k + 1,
            placement.at() + placement.taken(hunk),
            (hunk.anchor + hunk.before.len()) as int,
        )
    }
}

/// Whether, in `result`, no hunk from index `k` on finds the region that it
/// replaces where it is expected, unless it replaces the region by itself.
/// The first of these hunks is expected after the line at index `at` and the
/// lines between it and the hunk before it.
pub open spec fn regions_gone(
    hunks: Seq<HunkView>,
    k: int,
    prev_end: int,
    result: Seq<Seq<u8>>,
    at: int,
) -> bool
    decreases hunks.len() - k,
{
    k < 0 || k >= hunks.len() || {
        let hunk = hunks[k];
        let expected = at + gap(hunk.anchor as int, prev_end);
        &&& hunk.before == hunk.after || !matches_at(result, hunk.before, expected)
        &&& regions_gone(
            hunks,
            k + 1,
            (hunk.anchor + hunk.before.len()) as int,
            result,
            expected + hunk.after.len(),
        )
    }
}

/// Where every hunk is found where it is expected, the new text is the
/// lines that were put together, end to end, and holds no conflict.
pub proof fn lemma_merged_text_joins_lines(
    lines: Seq<Seq<u8>>,
    hunks: Seq<HunkView>,
    k: int,
    cursor: int,
    prev_end: int,
    label: Seq<u8>,
)
    requires
        0 <= k,
        0 <= cursor <= lines.len(),
        placed_as_expected(lines, hunks, k, cursor, prev_end),
    ensures
        merge_from(lines, hunks, k, cursor, prev_end, label).text == join_lines(
            merged_lines_from(lines, hunks, k, cursor, prev_end),
        ),
        !merge_from(lines, hunks, k, cursor, prev_end, label).conflicted,
    decreases hunks.len() - k,
{
    if k < hunks.len() {
        let hunk = hunks[k];
        let expected = cursor + gap(hunk.anchor as int, prev_end);
        let placement = place(lines, hunk, cursor, expected);
        let next = placement.at() + placement.taken(hunk);
        let next_end = (hunk.anchor + hunk.before.len()) as int;
        lemma_merged_text_joins_lines(lines, hunks, k + 1, next, next_end, label);
        let lead = lines.subrange(cursor, placement.at());
        let rest = merged_lines_from(lines, hunks, k + 1, next, next_end);
        lemma_flatten_concat(lead, hunk.after);
        lemma_flatten_concat(lead + hunk.after, rest);
    }
}

/// Reconciling the hunks from index `k` on with the lines that they were
/// put together into changes nothing.
pub proof fn lemma_settled_from(
    lines: Seq<Seq<u8>>,
    hunks: Seq<HunkView>,
    k: int,
    cursor: int,
    prev_end: int,
    result: Seq<Seq<u8>>,
    at: int,
    label: Seq<u8>,
)
    requires
        0 <= k,
        0 <= cursor <= lines.len(),
        0 <= at <= result.len(),
        placed_as_expected(lines, hunks, k, cursor, prev_end),
        result.subrange(at, result.len() as int) == merged_lines_from(
            lines,
            hunks,
            k,
            cursor,
            prev_end,
        ),
        regions_gone(hunks, k, prev_end, result, at),
    ensures
        merge_from(result, hunks, k, at, prev_end, label).text == join_lines(
            result.subrange(at, result.len() as int),
        ),
        !merge_from(result, hunks, k, at, prev_end, label).conflicted,
    decreases hunks.len() - k,
{
    if k < hunks.len() {
        let hunk = hunks[k];
        let between = gap(hunk.anchor as int, prev_end);
        let expected = cursor + between;
        let placement = place(lines, hunk, cursor, expected);
        let next = placement.at() + placement.taken(hunk);
        let next_end = (hunk.anchor + hunk.before.len()) as int;
        let lead = lines.subrange(cursor, expected);
        let rest = merged_lines_from(lines, hunks, k + 1, next, next_end);
        let tail = result.subrange(at, result.len() as int);
        assert(placement.at() == expected);
        assert(tail == lead + hunk.after + rest);
        assert(tail.len() == between + hunk.after.len() + rest.len());
        let there = at + between;
        let past = there + hunk.after.len();
        assert(result.subrange(at, there) =~= lead) by {
            assert forall|i: int| 0 <= i < between implies result.subrange(at, there)[i]
                == lead[i] by {
                assert(result[at + i] == tail[i]);
            }
        }
        assert(result.subrange(there, past) =~= hunk.after) by {
            assert forall|i: int| 0 <= i < hunk.after.len() implies result.subrange(there, past)[i]
                == hunk.after[i] by {
                assert(result[there + i] == tail[between + i]);
            }
        }
        assert(result.subrange(past, result.len() as int) =~= rest) by {
            assert forall|i: int| 0 <= i < rest.len() implies result.subrange(
                past,
                result.len() as int,
            )[i] == rest[i] by {
                assert(result[past + i] == tail[between + hunk.after.len() + i]);
            }
        }
        assert(matches_at(result, hunk.after, there));
        let again = place(result, hunk, at, there);
        assert(again.at() == there);
        assert(again.taken(hunk) == hunk.after.len());
        assert(!(again is Conflict));
        lemma_settled_from(lines, hunks, k + 1, next, next_end, result, past, label);
        lemma_flatten_concat(result.subrange(at, there), hunk.after);
        lemma_flatten_concat(result.subrange(at, there) + hunk.after, rest);
    }
}

/// A file that was modified is as its entry wants it, provided that every
/// hunk was found where it was expected, that the new text divides into the
/// lines it was put together from, and that in it no hunk finds the region
/// that it replaced where it is expected.
pub proof fn lemma_modified_in_place_settles(ours: Seq<u8>, hunks: Seq<HunkView>, label: Seq<u8>)
    requires
        placed_as_expected(lines_of(ours), hunks, 0, 0, 0),
        lines_of(merge_text(ours, hunks, label).text) == merged_lines_from(
            lines_of(ours),
            hunks,
            0,
            0,
            0,
        ),
        regions_gone(hunks, 0, 0, lines_of(merge_text(ours, hunks, label).text), 0),
    ensures
        !merge_text(ours, hunks, label).conflicted,
        steady(OperationView::Modify { hunks }, Some(merge_text(ours, hunks, label).text), label),
{
    let lines = lines_of(ours);
    let text = merge_text(ours, hunks, label).text;
    let result = lines_of(text);
    lemma_merged_text_joins_lines(lines, hunks, 0, 0, 0, label);
    assert(result.subrange(0, result.len() as int) =~= result);
    lemma_settled_from(lines, hunks, 0, 0, 0, result, 0, label);
}

/// Whether every line that the hunks put in place is one line that ends
/// with a terminator.
pub open spec fn bring_terminated_lines(hunks: Seq<HunkView>) -> bool {
    forall|k: int| 0 <= k < hunks.len() ==> terminated_lines((#[trigger] hunks[k]).after)
}

/// Hunks that bring terminated lines into terminated lines leave terminated
/// lines.
pub proof fn lemma_merged_lines_terminated(
    lines: Seq<Seq<u8>>,
    hunks: Seq<HunkView>,
    k: int,
    cursor: int,
    prev_end: int,
)
    requires
        0 <= k,
        0 <= cursor <= lines.len(),
        terminated_lines(lines),
        bring_terminated_lines(hunks),
    ensures
        terminated_lines(merged_lines_from(lines, hunks, k, cursor, prev_end)),
    decreases hunks.len() - k,
{
    if k < hunks.len() {
        let hunk = hunks[k];
        let expected = cursor + gap(hunk.anchor as int, prev_end);
        let placement = place(lines, hunk, cursor, expected);
        let next = placement.at() + placement.taken(hunk);
        let next_end = (hunk.anchor + hunk.before.len()) as int;
        lemma_place_bounds(lines, hunk, cursor, expected);
        lemma_merged_lines_terminated(lines, hunks, k + 1, next, next_end);
        let lead = lines.subrange(cursor, placement.at());
        let rest = merged_lines_from(lines, hunks, k + 1, next, next_end);
        let all = lead + hunk.after + rest;
        assert(terminated_lines(hunk.after));
        assert forall|i: int| 0 <= i < all.len() implies is_line(#[trigger] all[i])
            && all[i].last() == NEWLINE by {
            if i < lead.len() {
                assert(all[i] == lines[cursor + i]);
            } else if i < lead.len() + hunk.after.len() {
                assert(all[i] == hunk.after[i - lead.len()]);
            } else {
                assert(all[i] == rest[i - lead.len() - hunk.after.len()]);
            }
        }
    } else {
        let tail = lines.subrange(cursor, lines.len() as int);
        assert forall|i: int| 0 <= i < tail.len() implies is_line(#[trigger] tail[i])
            && tail[i].last() == NEWLINE by {
            assert(tail[i] == lines[cursor + i]);
        }
    }
}

/// A file that ends with a terminator, and that was modified by hunks that
/// bring whole lines, is as its entry wants it, provided that every hunk was
/// found where it was expected and that, among the new lines, no hunk finds
/// the region that it replaced where it is expected.
pub proof fn lemma_modified_text_settles(ours: Seq<u8>, hunks: Seq<HunkView>, label: Seq<u8>)
    requires
        ours.len() == 0 || ours.last() == NEWLINE,
        bring_terminated_lines(hunks),
        placed_as_expected(lines_of(ours), hunks, 0, 0, 0),
        regions_gone(hunks, 0, 0, merged_lines_from(lines_of(ours), hunks, 0, 0, 0), 0),
    ensures
        !merge_text(ours, hunks, label).conflicted,
        steady(OperationView::Modify { hunks }, Some(merge_text(ours, hunks, label).text), label),
{
    let lines = lines_of(ours);
    let result = merged_lines_from(lines, hunks, 0, 0, 0);
    lemma_lines_from_terminated(ours, 0);
    lemma_merged_lines_terminated(lines, hunks, 0, 0, 0);
    lemma_merged_text_joins_lines(lines, hunks, 0, 0, 0, label);
    lemma_lines_of_joined(result);
    lemma_modified_in_place_settles(ours, hunks, label);
}

} // verus!
