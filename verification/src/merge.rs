//! Reconciling the hunks of a change with the lines that a file holds now.
//!
//! The hunks are taken in order, and a cursor runs through the file's lines.
//! Each hunk is looked for where the lines between it and the hunk before it
//! put it. Found there, its region is replaced. Where the region already
//! holds what the hunk would put there, it is left as it is. Else the hunk is
//! placed where its region occurs exactly once from the cursor on. A hunk
//! that cannot be placed leaves a conflict block where it was expected.

use vstd::prelude::*;
use crate::conflict::{conflict_block, render_conflict};
use crate::entry::{hunks_view, Hunk, HunkView};
use crate::text::{
    append_bytes, append_lines, bytes_equal, join_lines, lines_of, lines_view, split_lines,
};

verus! {

/// Whether the lines of `pattern` stand in `lines` from index `at` on.
pub open spec fn matches_at(lines: Seq<Seq<u8>>, pattern: Seq<Seq<u8>>, at: int) -> bool {
    &&& 0 <= at
    &&& at + pattern.len() <= lines.len()
    &&& lines.subrange(at, at + pattern.len()) == pattern
}

/// Whether `at` is the one place from `from` on where `pattern` stands in
/// `lines`.
pub open spec fn sole_match(lines: Seq<Seq<u8>>, pattern: Seq<Seq<u8>>, from: int, at: int) -> bool {
    &&& from <= at
    &&& matches_at(lines, pattern, at)
    &&& forall|other: int|
        from <= other && #[trigger] matches_at(lines, pattern, other) ==> other == at
}

/// Where a hunk goes, and how.
pub enum Placement {
    /// The region before the change stands at `at` and is replaced.
    Replace { at: int },
    /// The region after the change already stands at `at`.
    Present { at: int },
    /// The hunk has no place: the `len` lines at `at` are set against it.
    Conflict { at: int, len: int },
}

impl Placement {
    /// The index of the first line of the region.
    pub open spec fn at(self) -> int {
        match self {
            Placement::Replace { at } => at,
            Placement::Present { at } => at,
            Placement::Conflict { at, .. } => at,
        }
    }

    /// How many of the file's lines the region takes up.
    pub open spec fn taken(self, hunk: HunkView) -> int {
        match self {
            Placement::Replace { .. } => hunk.before.len() as int,
            Placement::Present { .. } => hunk.after.len() as int,
            Placement::Conflict { len, .. } => len,
        }
    }
}

/// The number of lines between the end of the hunk before, at `prev_end`,
/// and a hunk anchored at `anchor`; none where the two overlap.
pub open spec fn gap(anchor: int, prev_end: int) -> int {
    if anchor >= prev_end {
        anchor - prev_end
    } else {
        0
    }
}

/// The lesser of two integers.
pub open spec fn lesser(a: int, b: int) -> int {
    if a <= b {
        a
    } else {
        b
    }
}

/// Where the hunk goes in `lines`, with the cursor at `cursor` and the hunk
/// expected at `expected`.
pub open spec fn place(lines: Seq<Seq<u8>>, hunk: HunkView, cursor: int, expected: int) -> Placement {
    if matches_at(lines, hunk.before, expected) {
        Placement::Replace { at: expected }
    } else if matches_at(lines, hunk.after, expected) {
        Placement::Present { at: expected }
    } else if exists|at: int| sole_match(lines, hunk.before, cursor, at) {
        Placement::Replace { at: choose|at: int| sole_match(lines, hunk.before, cursor, at) }
    } else {
        let at = lesser(expected, lines.len() as int);
        Placement::Conflict { at, len: lesser(hunk.before.len() as int, lines.len() - at) }
    }
}

/// The text that stands for the hunk's region in the result.
pub open spec fn region_text(
    lines: Seq<Seq<u8>>,
    hunk: HunkView,
    placement: Placement,
    label: Seq<u8>,
) -> Seq<u8> {
    match placement {
        Placement::Conflict { at, len } => conflict_block(
            join_lines(lines.subrange(at, at + len)),
            join_lines(hunk.after),
            label,
        ),
        _ => join_lines(hunk.after),
    }
}

/// The result of reconciling hunks with a file: its new text, and whether a
/// hunk was left unresolved in it.
pub struct MergedView {
    pub text: Seq<u8>,
    pub conflicted: bool,
}

/// The result for the hunks from index `k` on, with the cursor at `cursor`
/// and the hunk before them ending at `prev_end` in the file that the change
/// was made from.
pub open spec fn merge_from(
    lines: Seq<Seq<u8>>,
    hunks: Seq<HunkView>,
    k: int,
    cursor: int,
    prev_end: int,
    label: Seq<u8>,
) -> MergedView
    decreases hunks.len() - k,
{
    if k < 0 || k >= hunks.len() {
        MergedView { text: join_lines(lines.subrange(cursor, lines.len() as int)), conflicted: false }
    } else {
        let hunk = hunks[k];
        let placement = place(lines, hunk, cursor, cursor + gap(hunk.anchor as int, prev_end));
        let rest = merge_from(
            lines,
            hunks,
            k + 1,
            placement.at() + placement.taken(hunk),
            (hunk.anchor + hunk.before.len()) as int,
            label,
        );
        MergedView {
            text: join_lines(lines.subrange(cursor, placement.at())) + region_text(
                lines,
                hunk,
                placement,
                label,
            ) + rest.text,
            conflicted: placement is Conflict || rest.conflicted,
        }
    }
}

/// The result of reconciling `hunks` with a file that holds `content`.
pub open spec fn merge_text(content: Seq<u8>, hunks: Seq<HunkView>, label: Seq<u8>) -> MergedView {
    merge_from(lines_of(content), hunks, 0, 0, 0, label)
}

/// A placement lies between the cursor and the end of the lines.
pub proof fn lemma_place_bounds(lines: Seq<Seq<u8>>, hunk: HunkView, cursor: int, expected: int)
    requires
        0 <= cursor <= lines.len(),
        cursor <= expected,
    ensures
        cursor <= place(lines, hunk, cursor, expected).at(),
        place(lines, hunk, cursor, expected).taken(hunk) >= 0,
        place(lines, hunk, cursor, expected).at() + place(lines, hunk, cursor, expected).taken(
            hunk,
        ) <= lines.len(),
{
}

/// Whether the lines of `pattern` stand in `lines` from index `at` on.
pub fn lines_match_at(lines: &Vec<Vec<u8>>, pattern: &Vec<Vec<u8>>, at: usize) -> (found: bool)
    ensures
        found == matches_at(lines_view(lines@), lines_view(pattern@), at as int),
{
    if pattern.len() > lines.len() || at > lines.len() - pattern.len() {
        return false;
    }
    let ghost window = lines_view(lines@).subrange(at as int, at + pattern.len());
    let mut i: usize = 0;
    while i < pattern.len()
        invariant
            i <= pattern.len(),
            at + pattern.len() <= lines.len(),
            window == lines_view(lines@).subrange(at as int, at + pattern.len()),
            forall|j: int| 0 <= j < i ==> window[j] == lines_view(pattern@)[j],
        decreases pattern.len() - i,
    {
        if !bytes_equal(&lines[at + i], &pattern[i]) {
            assert(window[i as int] != lines_view(pattern@)[i as int]);
            return false;
        }
        i += 1;
    }
    assert(window =~= lines_view(pattern@));
    true
}

/// The one place from `from` on where `pattern` stands in `lines`, if there
/// is exactly one.
pub fn find_sole_match(lines: &Vec<Vec<u8>>, pattern: &Vec<Vec<u8>>, from: usize) -> (found: Option<
    usize,
>)
    ensures
        match found {
            Some(at) => sole_match(lines_view(lines@), lines_view(pattern@), from as int, at as int),
            None => forall|at: int|
                !sole_match(lines_view(lines@), lines_view(pattern@), from as int, at),
        },
{
    let ghost ls = lines_view(lines@);
    let ghost pat = lines_view(pattern@);
    if pattern.len() > lines.len() || from > lines.len() - pattern.len() {
        return None;
    }
    let last: usize = lines.len() - pattern.len();
    let mut found: Option<usize> = None;
    let mut i: usize = from;
    loop
        invariant_except_break
            from <= i <= last,
            match found {
                Some(at) => {
                    &&& from <= at < i
                    &&& matches_at(ls, pat, at as int)
                    &&& forall|other: int|
                        from <= other < i && #[trigger] matches_at(ls, pat, other) ==> other == at
                },
                None => forall|other: int|
                    from <= other < i ==> !#[trigger] matches_at(ls, pat, other),
            },
        invariant
            ls == lines_view(lines@),
            pat == lines_view(pattern@),
            last == lines.len() - pattern.len(),
        ensures
            match found {
                Some(at) => sole_match(ls, pat, from as int, at as int),
                None => forall|at: int| !sole_match(ls, pat, from as int, at),
            },
        decreases last - i,
    {
        if lines_match_at(lines, pattern, i) {
            if found.is_some() {
                let ghost first = found.unwrap() as int;
                assert forall|at: int| !sole_match(ls, pat, from as int, at) by {
                    if sole_match(ls, pat, from as int, at) {
                        assert(matches_at(ls, pat, first));
                        assert(matches_at(ls, pat, i as int));
                    }
                }
                found = None;
                break;
            }
            found = Some(i);
        }
        if i == last {
            proof {
                match found {
                    Some(at) => {
                        assert forall|other: int|
                            from <= other && #[trigger] matches_at(ls, pat, other) implies other
                            == at by {
                            assert(other <= last);
                        }
                    },
                    None => {
                        assert forall|at: int| !sole_match(ls, pat, from as int, at) by {
                            if sole_match(ls, pat, from as int, at) {
                                assert(matches_at(ls, pat, at));
                                assert(at <= last);
                            }
                        }
                    },
                }
            }
            break;
        }
        i += 1;
    }
    found
}

/// Where a hunk goes, and how, as the engine holds it.
#[derive(Debug, Clone, PartialEq, Eq)]
pub enum Spot {
    Replace { at: usize },
    Present { at: usize },
    Conflict { at: usize, len: usize },
}

impl View for Spot {
    type V = Placement;

    open spec fn view(&self) -> Placement {
        match self {
            Spot::Replace { at } => Placement::Replace { at: *at as int },
            Spot::Present { at } => Placement::Present { at: *at as int },
            Spot::Conflict { at, len } => Placement::Conflict { at: *at as int, len: *len as int },
        }
    }
}

/// Places one hunk in `lines`, with the cursor at `cursor` and `gap` lines
/// expected between the cursor and the hunk.
pub fn place_hunk(lines: &Vec<Vec<u8>>, hunk: &Hunk, cursor: usize, gap: usize) -> (spot: Spot)
    ensures
        spot@ == place(lines_view(lines@), hunk@, cursor as int, cursor + gap),
{
    let ghost ls = lines_view(lines@);
    if cursor > lines.len() {
        assert forall|at: int| !sole_match(ls, hunk@.before, cursor as int, at) by {}
        return Spot::Conflict { at: lines.len(), len: 0 };
    }
    let room: usize = lines.len() - cursor;
    if gap <= room {
        let expected: usize = cursor + gap;
        if lines_match_at(lines, &hunk.before, expected) {
            return Spot::Replace { at: expected };
        }
        if lines_match_at(lines, &hunk.after, expected) {
            return Spot::Present { at: expected };
        }
    }
    match find_sole_match(lines, &hunk.before, cursor) {
        Some(at) => {
            assert(sole_match(ls, hunk@.before, cursor as int, at as int));
            Spot::Replace { at }
        },
        None => {
            let at: usize = if gap <= room {
                cursor + gap
            } else {
                lines.len()
            };
            let rest: usize = lines.len() - at;
            let len: usize = if hunk.before.len() <= rest {
                hunk.before.len()
            } else {
                rest
            };
            Spot::Conflict { at, len }
        },
    }
}

/// The result of reconciling hunks with a file: its new text, and whether a
/// hunk was left unresolved in it.
#[derive(Debug, Clone, PartialEq, Eq)]
pub struct Merged {
    pub text: Vec<u8>,
    pub conflicted: bool,
}

impl View for Merged {
    type V = MergedView;

    open spec fn view(&self) -> MergedView {
        MergedView { text: self.text@, conflicted: self.conflicted }
    }
}

/// Reconciles `hunks` with a file that holds `content`. Hunks that find
/// their place are applied, or left where they already are; each of the
/// others leaves a conflict block, closed with `label`, and the result is
/// marked as conflicted.
pub fn merge_hunks(content: &Vec<u8>, hunks: &Vec<Hunk>, label: &Vec<u8>) -> (merged: Merged)
    ensures
        merged@ == merge_text(content@, hunks_view(hunks@), label@),
{
    let lines = split_lines(content);
    let ghost ls = lines_view(lines@);
    let ghost hs = hunks_view(hunks@);
    let ghost total = merge_from(ls, hs, 0, 0, 0, label@);
    let mut out: Vec<u8> = Vec::new();
    let mut conflicted = false;
    let mut cursor: usize = 0;
    let mut prev_anchor: usize = 0;
    let mut prev_len: usize = 0;
    let mut k: usize = 0;
    assert(out@ + total.text =~= total.text);
    while k < hunks.len()
        invariant
            k <= hunks.len(),
            cursor <= lines.len(),
            ls == lines_view(lines@),
            hs == hunks_view(hunks@),
            total.text == out@ + merge_from(
                ls,
                hs,
                k as int,
                cursor as int,
                prev_anchor + prev_len,
                label@,
            ).text,
            total.conflicted == (conflicted || merge_from(
                ls,
                hs,
                k as int,
                cursor as int,
                prev_anchor + prev_len,
                label@,
            ).conflicted),
        decreases hunks.len() - k,
    {
        let hunk = &hunks[k];
        let gap_len: usize = if hunk.anchor >= prev_anchor && hunk.anchor - prev_anchor
            >= prev_len {
            hunk.anchor - prev_anchor - prev_len
        } else {
            0
        };
        assert(gap_len == gap(hunk.anchor as int, prev_anchor + prev_len));
        let ghost here = merge_from(ls, hs, k as int, cursor as int, prev_anchor + prev_len, label@);
        let ghost out_before = out@;
        let spot = place_hunk(&lines, hunk, cursor, gap_len);
        assert(hs[k as int] == hunk@);
        proof {
            lemma_place_bounds(ls, hunk@, cursor as int, cursor + gap_len);
        }
        let next: usize;
        match spot {
            Spot::Replace { at } => {
                append_lines(&mut out, &lines, cursor, at);
                append_lines(&mut out, &hunk.after, 0, hunk.after.len());
                assert(lines_view(hunk.after@).subrange(0, hunk.after.len() as int) =~= hunk@.after);
                next = at + hunk.before.len();
            },
            Spot::Present { at } => {
                append_lines(&mut out, &lines, cursor, at);
                append_lines(&mut out, &hunk.after, 0, hunk.after.len());
                assert(lines_view(hunk.after@).subrange(0, hunk.after.len() as int) =~= hunk@.after);
                next = at + hunk.after.len();
            },
            Spot::Conflict { at, len } => {
                append_lines(&mut out, &lines, cursor, at);
                let mut ours: Vec<u8> = Vec::new();
                append_lines(&mut ours, &lines, at, at + len);
                let mut theirs: Vec<u8> = Vec::new();
                append_lines(&mut theirs, &hunk.after, 0, hunk.after.len());
                assert(lines_view(hunk.after@).subrange(0, hunk.after.len() as int) =~= hunk@.after);
                assert(ours@ =~= join_lines(ls.subrange(at as int, at + len)));
                assert(theirs@ =~= join_lines(hunk@.after));
                let block = render_conflict(&ours, &theirs, label);
                append_bytes(&mut out, &block);
                conflicted = true;
                next = at + len;
            },
        }
        let ghost rest = merge_from(
            ls,
            hs,
            k + 1,
            next as int,
            hunk.anchor + hunk.before.len(),
            label@,
        );
        assert(here.text == join_lines(ls.subrange(cursor as int, spot@.at())) + region_text(
            ls,
            hunk@,
            spot@,
            label@,
        ) + rest.text);
        assert(out@ == out_before + join_lines(ls.subrange(cursor as int, spot@.at()))
            + region_text(ls, hunk@, spot@, label@));
        assert(out@ + rest.text =~= out_before + here.text);
        cursor = next;
        prev_anchor = hunk.anchor;
        prev_len = hunk.before.len();
        k += 1;
    }
    append_lines(&mut out, &lines, cursor, lines.len());
    Merged { text: out, conflicted }
}

} // verus!
