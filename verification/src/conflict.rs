//! The textual form of an unresolved region.
//!
//! A region on which the tree and the incoming change disagree is written
//! out as a block of five parts, each starting on a line of its own: the
//! opening marker, the tree's text, the separator, the incoming text, and the
//! closing marker, which names where the incoming change came from. The
//! error that names the unresolved files is made here as well.

use vstd::prelude::*;
use crate::error::{ApplyError, ApplyErrorView};
use crate::path::paths_view;
use crate::text::{append_bytes, NEWLINE};

verus! {

/// The line `<<<<<<< HEAD`, which opens the tree's side of a block.
pub open spec fn opening_marker() -> Seq<u8> {
    seq![60u8, 60u8, 60u8, 60u8, 60u8, 60u8, 60u8, 32u8, 72u8, 69u8, 65u8, 68u8, 10u8]
}

/// The line `=======`, which parts the two sides of a block.
pub open spec fn separator_marker() -> Seq<u8> {
    seq![61u8, 61u8, 61u8, 61u8, 61u8, 61u8, 61u8, 10u8]
}

/// The bytes `>>>>>>> `, with which the closing marker begins.
pub open spec fn closing_prefix() -> Seq<u8> {
    seq![62u8, 62u8, 62u8, 62u8, 62u8, 62u8, 62u8, 32u8]
}

/// The line that closes a block: `>>>>>>> ` and the label of the incoming
/// change.
pub open spec fn closing_marker(label: Seq<u8>) -> Seq<u8> {
    closing_prefix() + label + seq![NEWLINE]
}

/// The text with a terminator added where it is not empty and its last line
/// has none, so that a marker after it starts a line.
pub open spec fn terminated(text: Seq<u8>) -> Seq<u8> {
    if text.len() == 0 || text.last() == NEWLINE {
        text
    } else {
        text.push(NEWLINE)
    }
}

/// The block that stands for a region on which `ours`, the tree's text, and
/// `theirs`, the incoming text, disagree.
pub open spec fn conflict_block(ours: Seq<u8>, theirs: Seq<u8>, label: Seq<u8>) -> Seq<u8> {
    opening_marker() + terminated(ours) + separator_marker() + terminated(theirs) + closing_marker(
        label,
    )
}

/// Whether `pattern` occurs in `text`, byte for byte.
pub open spec fn occurs_in(pattern: Seq<u8>, text: Seq<u8>) -> bool {
    exists|i: int|
        0 <= i && i + pattern.len() <= text.len() && #[trigger] text.subrange(
            i,
            i + pattern.len(),
        ) == pattern
}

/// Whether a text holds all three markers of a block for the given label.
pub open spec fn has_markers(text: Seq<u8>, label: Seq<u8>) -> bool {
    &&& occurs_in(opening_marker(), text)
    &&& occurs_in(separator_marker(), text)
    &&& occurs_in(closing_marker(label), text)
}

/// A pattern that occurs in the middle part of a text occurs in the text.
pub proof fn lemma_occurs_in_middle(
    pattern: Seq<u8>,
    left: Seq<u8>,
    middle: Seq<u8>,
    right: Seq<u8>,
)
    requires
        occurs_in(pattern, middle),
    ensures
        occurs_in(pattern, left + middle + right),
{
    let i = choose|i: int|
        0 <= i && i + pattern.len() <= middle.len() && #[trigger] middle.subrange(
            i,
            i + pattern.len(),
        ) == pattern;
    let whole = left + middle + right;
    let j = left.len() + i;
    assert(whole.subrange(j, j + pattern.len()) =~= middle.subrange(i, i + pattern.len()));
}

/// Of five texts put end to end, the first, the third and the fifth occur in
/// the whole.
pub proof fn lemma_odd_parts_occur(
    a: Seq<u8>,
    b: Seq<u8>,
    c: Seq<u8>,
    d: Seq<u8>,
    e: Seq<u8>,
)
    ensures
        occurs_in(a, a + b + c + d + e),
        occurs_in(c, a + b + c + d + e),
        occurs_in(e, a + b + c + d + e),
{
    let whole = a + b + c + d + e;
    assert(whole.subrange(0, 0 + a.len() as int) =~= a);
    let j = (a.len() + b.len()) as int;
    assert(whole.subrange(j, j + c.len() as int) =~= c);
    let k = (a.len() + b.len() + c.len() + d.len()) as int;
    assert(whole.subrange(k, k + e.len() as int) =~= e);
}

/// Every block holds its three markers, whatever its two sides are.
pub proof fn lemma_block_has_markers(ours: Seq<u8>, theirs: Seq<u8>, label: Seq<u8>)
    ensures
        has_markers(conflict_block(ours, theirs, label), label),
{
    lemma_odd_parts_occur(
        opening_marker(),
        terminated(ours),
        separator_marker(),
        terminated(theirs),
        closing_marker(label),
    );
}

/// Appends `text` to `out`, and a terminator where `text` is not empty and
/// does not end with one.
fn append_terminated(out: &mut Vec<u8>, text: &Vec<u8>)
    ensures
        final(out)@ == old(out)@ + terminated(text@),
{
    append_bytes(out, text);
    if text.len() > 0 && text[text.len() - 1] != NEWLINE {
        out.push(NEWLINE);
        assert(out@ =~= old(out)@ + text@.push(NEWLINE));
    }
}

/// Renders the block for a region on which the tree's text `ours` and the
/// incoming text `theirs` disagree; `label` names the incoming change.
pub fn render_conflict(ours: &Vec<u8>, theirs: &Vec<u8>, label: &Vec<u8>) -> (block: Vec<u8>)
    ensures
        block@ == conflict_block(ours@, theirs@, label@),
{
    let mut block: Vec<u8> = vec![
        60u8, 60u8, 60u8, 60u8, 60u8, 60u8, 60u8, 32u8, 72u8, 69u8, 65u8, 68u8, 10u8,
    ];
    assert(block@ =~= opening_marker());
    append_terminated(&mut block, ours);
    let separator: Vec<u8> = vec![61u8, 61u8, 61u8, 61u8, 61u8, 61u8, 61u8, 10u8];
    assert(separator@ =~= separator_marker());
    append_bytes(&mut block, &separator);
    append_terminated(&mut block, theirs);
    let prefix: Vec<u8> = vec![62u8, 62u8, 62u8, 62u8, 62u8, 62u8, 62u8, 32u8];
    assert(prefix@ =~= closing_prefix());
    append_bytes(&mut block, &prefix);
    append_bytes(&mut block, label);
    block.push(NEWLINE);
    assert(block@ =~= conflict_block(ours@, theirs@, label@));
    block
}

/// The error that stands for the unresolved `paths`.
pub fn merge_conflict(paths: Vec<Vec<u8>>) -> (error: ApplyError)
    ensures
        error@ == (ApplyErrorView::MergeConflict { paths: paths_view(paths@) }),
{
    ApplyError::MergeConflict { paths }
}

} // verus!
