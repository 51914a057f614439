//! Byte strings and their division into lines.
//!
//! A line keeps its terminator, so the lines of a text, put end to end, are
//! the text again, whether or not its last line is terminated.

use vstd::prelude::*;
use vstd::seq_lib::lemma_flatten_concat;

verus! {

/// The line terminator.
pub const NEWLINE: u8 = 10;

/// The index just past the line that begins at `from`: past its terminator,
/// or the end of the text where the last line has none.
pub open spec fn line_end(s: Seq<u8>, from: int) -> int
    decreases s.len() - from,
{
    if from < 0 || from >= s.len() {
        s.len() as int
    } else if s[from] == NEWLINE {
        from + 1
    } else {
        line_end(s, from + 1)
    }
}

/// The lines of `s` from index `from` on.
pub open spec fn lines_from(s: Seq<u8>, from: int) -> Seq<Seq<u8>>
    decreases s.len() - from,
    via lines_from_decreases
{
    if from < 0 || from >= s.len() {
        Seq::empty()
    } else {
        seq![s.subrange(from, line_end(s, from))] + lines_from(s, line_end(s, from))
    }
}

#[via_fn]
proof fn lines_from_decreases(s: Seq<u8>, from: int) {
    if 0 <= from < s.len() {
        lemma_line_end_bounds(s, from);
    }
}

/// The lines of a text, each with its terminator.
pub open spec fn lines_of(s: Seq<u8>) -> Seq<Seq<u8>> {
    lines_from(s, 0)
}

/// The lines put end to end.
pub open spec fn join_lines(lines: Seq<Seq<u8>>) -> Seq<u8> {
    lines.flatten()
}

/// What a vector of lines holds.
pub open spec fn lines_view(lines: Seq<Vec<u8>>) -> Seq<Seq<u8>> {
    Seq::new(lines.len(), |i: int| lines[i]@)
}

/// A line ends after its beginning and within the text.
pub proof fn lemma_line_end_bounds(s: Seq<u8>, from: int)
    requires
        0 <= from < s.len(),
    ensures
        from < line_end(s, from) <= s.len(),
    decreases s.len() - from,
{
    if s[from] != NEWLINE {
        if from + 1 < s.len() {
            lemma_line_end_bounds(s, from + 1);
        } else {
            assert(line_end(s, from + 1) == s.len());
        }
    }
}

/// The lines from `from` on, put end to end, are the text from `from` on.
pub proof fn lemma_join_lines_from(s: Seq<u8>, from: int)
    requires
        0 <= from <= s.len(),
    ensures
        join_lines(lines_from(s, from)) == s.subrange(from, s.len() as int),
    decreases s.len() - from,
{
    if from < s.len() {
        lemma_line_end_bounds(s, from);
        let e = line_end(s, from);
        lemma_join_lines_from(s, e);
        let head = seq![s.subrange(from, e)];
        lemma_flatten_concat(head, lines_from(s, e));
        head.lemma_flatten_singleton();
        assert(s.subrange(from, e) + s.subrange(e, s.len() as int) =~= s.subrange(
            from,
            s.len() as int,
        ));
    } else {
        assert(s.subrange(from, s.len() as int) =~= Seq::<u8>::empty());
    }
}

/// Dividing a text into lines loses nothing: the lines, put end to end, are
/// the text.
pub proof fn lemma_join_lines_of(s: Seq<u8>)
    ensures
        join_lines(lines_of(s)) == s,
{
    lemma_join_lines_from(s, 0);
    assert(s.subrange(0, s.len() as int) =~= s);
}

/// Whether a byte string is one line: not empty, and without a terminator
/// before its last byte.
pub open spec fn is_line(line: Seq<u8>) -> bool {
    line.len() > 0 && forall|i: int| 0 <= i < line.len() - 1 ==> line[i] != NEWLINE
}

/// Whether byte strings are the lines of a text: each is one line, and each
/// but the last ends with a terminator.
pub open spec fn proper_lines(lines: Seq<Seq<u8>>) -> bool {
    forall|k: int|
        0 <= k < lines.len() ==> is_line(#[trigger] lines[k]) && (k < lines.len() - 1
            ==> lines[k].last() == NEWLINE)
}

/// A line that begins at `from` and has its first terminator, or the end of
/// the text, at its last byte ends there.
pub proof fn lemma_line_end_at(s: Seq<u8>, from: int, end: int)
    requires
        0 <= from < end <= s.len(),
        forall|i: int| from <= i < end - 1 ==> s[i] != NEWLINE,
        s[end - 1] == NEWLINE || end == s.len(),
    ensures
        line_end(s, from) == end,
    decreases end - from,
{
    if from < end - 1 {
        lemma_line_end_at(s, from + 1, end);
    } else if s[from] != NEWLINE {
        assert(line_end(s, from + 1) == s.len());
    }
}

/// The lines of a text that follows another are the lines of the whole from
/// the end of the first text on.
pub proof fn lemma_lines_from_shift(head: Seq<u8>, tail: Seq<u8>, from: int)
    requires
        0 <= from <= tail.len(),
    ensures
        lines_from(head + tail, head.len() + from) == lines_from(tail, from),
    decreases tail.len() - from,
{
    let whole = head + tail;
    if from < tail.len() {
        lemma_line_end_bounds(tail, from);
        let end = line_end(tail, from);
        assert(line_end(whole, head.len() + from) == head.len() + end) by {
            lemma_line_end_shift(head, tail, from);
        }
        lemma_lines_from_shift(head, tail, end);
        assert(whole.subrange(head.len() + from, head.len() + end) =~= tail.subrange(from, end));
    }
}

/// A line of a text that follows another ends where it ends in the whole.
pub proof fn lemma_line_end_shift(head: Seq<u8>, tail: Seq<u8>, from: int)
    requires
        0 <= from <= tail.len(),
    ensures
        line_end(head + tail, head.len() + from) == head.len() + line_end(tail, from),
    decreases tail.len() - from,
{
    let whole = head + tail;
    if from < tail.len() {
        assert(whole[head.len() + from] == tail[from]);
        if tail[from] != NEWLINE {
            lemma_line_end_shift(head, tail, from + 1);
        }
    }
}

/// Whether each of the byte strings is one line that ends with a
/// terminator.
pub open spec fn terminated_lines(lines: Seq<Seq<u8>>) -> bool {
    forall|k: int|
        0 <= k < lines.len() ==> is_line(#[trigger] lines[k]) && lines[k].last() == NEWLINE
}

/// The line that begins at `from` has no terminator before its last byte,
/// and ends with one unless it ends the text.
pub proof fn lemma_line_end_closes_line(s: Seq<u8>, from: int)
    requires
        0 <= from < s.len(),
    ensures
        forall|i: int| from <= i < line_end(s, from) - 1 ==> s[i] != NEWLINE,
        s[line_end(s, from) - 1] == NEWLINE || line_end(s, from) == s.len(),
    decreases s.len() - from,
{
    if s[from] != NEWLINE {
        if from + 1 < s.len() {
            lemma_line_end_closes_line(s, from + 1);
        } else {
            assert(line_end(s, from + 1) == s.len());
        }
    }
}

/// The lines of a text that ends with a terminator, from index `from` on,
/// all end with one.
pub proof fn lemma_lines_from_terminated(s: Seq<u8>, from: int)
    requires
        0 <= from <= s.len(),
        s.len() == 0 || s.last() == NEWLINE,
    ensures
        terminated_lines(lines_from(s, from)),
    decreases s.len() - from,
{
    if from < s.len() {
        lemma_line_end_bounds(s, from);
        lemma_line_end_closes_line(s, from);
        let end = line_end(s, from);
        let first = s.subrange(from, end);
        let rest = lines_from(s, end);
        lemma_lines_from_terminated(s, end);
        assert(is_line(first));
        assert(first.last() == NEWLINE);
        let all = seq![first] + rest;
        assert forall|k: int| 0 <= k < all.len() implies is_line(#[trigger] all[k])
            && all[k].last() == NEWLINE by {
            if k > 0 {
                assert(all[k] == rest[k - 1]);
            }
        }
    }
}

/// Lines put end to end and divided again are the same lines.
pub proof fn lemma_lines_of_joined(lines: Seq<Seq<u8>>)
    requires
        proper_lines(lines),
    ensures
        lines_of(join_lines(lines)) == lines,
    decreases lines.len(),
{
    if lines.len() > 0 {
        let first = lines[0];
        let rest = lines.drop_first();
        let text = join_lines(lines);
        assert(text == first + join_lines(rest));
        assert forall|k: int| 0 <= k < rest.len() implies is_line(#[trigger] rest[k]) && (k
            < rest.len() - 1 ==> rest[k].last() == NEWLINE) by {
            assert(rest[k] == lines[k + 1]);
        }
        lemma_lines_of_joined(rest);
        if rest.len() == 0 {
            assert(join_lines(rest) =~= Seq::<u8>::empty());
            assert(text =~= first);
        }
        lemma_line_end_at(text, 0, first.len() as int);
        lemma_lines_from_shift(first, join_lines(rest), 0);
        assert(text.subrange(0, first.len() as int) =~= first);
        assert(seq![first] + rest =~= lines);
    }
}

/// Whether two byte strings hold the same bytes.
pub fn bytes_equal(a: &Vec<u8>, b: &Vec<u8>) -> (same: bool)
    ensures
        same == (a@ == b@),
{
    if a.len() != b.len() {
        return false;
    }
    let mut i: usize = 0;
    while i < a.len()
        invariant
            i <= a.len(),
            a.len() == b.len(),
            forall|j: int| 0 <= j < i ==> a@[j] == b@[j],
        decreases a.len() - i,
    {
        if a[i] != b[i] {
            return false;
        }
        i += 1;
    }
    assert(a@ =~= b@);
    true
}

/// Appends the bytes of `src` from `from` up to `to` to `dst`.
pub fn append_range(dst: &mut Vec<u8>, src: &Vec<u8>, from: usize, to: usize)
    requires
        from <= to <= src.len(),
    ensures
        final(dst)@ == old(dst)@ + src@.subrange(from as int, to as int),
{
    let mut i: usize = from;
    while i < to
        invariant
            from <= i <= to <= src.len(),
            dst@ == old(dst)@ + src@.subrange(from as int, i as int),
        decreases to - i,
    {
        dst.push(src[i]);
        i += 1;
    }
}

/// Appends all of `src` to `dst`.
pub fn append_bytes(dst: &mut Vec<u8>, src: &Vec<u8>)
    ensures
        final(dst)@ == old(dst)@ + src@,
{
    append_range(dst, src, 0, src.len());
    assert(src@.subrange(0, src.len() as int) =~= src@);
}

/// A copy of `src`.
pub fn copy_bytes(src: &Vec<u8>) -> (copy: Vec<u8>)
    ensures
        copy@ == src@,
{
    let mut copy: Vec<u8> = Vec::new();
    append_bytes(&mut copy, src);
    copy
}

/// Appends the lines from index `from` up to `to` to `dst`, end to end.
pub fn append_lines(dst: &mut Vec<u8>, lines: &Vec<Vec<u8>>, from: usize, to: usize)
    requires
        from <= to <= lines.len(),
    ensures
        final(dst)@ == old(dst)@ + join_lines(
            lines_view(lines@).subrange(from as int, to as int),
        ),
{
    let mut i: usize = from;
    assert(lines_view(lines@).subrange(from as int, from as int) =~= Seq::<Seq<u8>>::empty());
    while i < to
        invariant
            from <= i <= to <= lines.len(),
            dst@ == old(dst)@ + join_lines(lines_view(lines@).subrange(from as int, i as int)),
        decreases to - i,
    {
        let ghost done = lines_view(lines@).subrange(from as int, i as int);
        append_bytes(dst, &lines[i]);
        proof {
            done.lemma_flatten_push(lines@[i as int]@);
            assert(lines_view(lines@).subrange(from as int, i + 1) =~= done.push(
                lines@[i as int]@,
            ));
        }
        i += 1;
    }
}

/// Divides a text into its lines.
pub fn split_lines(text: &Vec<u8>) -> (lines: Vec<Vec<u8>>)
    ensures
        lines_view(lines@) == lines_of(text@),
{
    let mut lines: Vec<Vec<u8>> = Vec::new();
    let mut start: usize = 0;
    assert(lines_view(lines@) =~= Seq::<Seq<u8>>::empty());
    while start < text.len()
        invariant
            start <= text.len(),
            lines_of(text@) == lines_view(lines@) + lines_from(text@, start as int),
        decreases text.len() - start,
    {
        let mut end: usize = start;
        while end < text.len() && text[end] != NEWLINE
            invariant
                start <= end <= text.len(),
                line_end(text@, start as int) == line_end(text@, end as int),
            decreases text.len() - end,
        {
            end += 1;
        }
        if end < text.len() {
            end += 1;
        }
        proof {
            lemma_line_end_bounds(text@, start as int);
        }
        let mut line: Vec<u8> = Vec::new();
        append_range(&mut line, text, start, end);
        let ghost before = lines_view(lines@);
        lines.push(line);
        assert(lines_view(lines@) =~= before + seq![text@.subrange(start as int, end as int)]);
        start = end;
    }
    assert(lines_from(text@, start as int) =~= Seq::<Seq<u8>>::empty());
    lines
}

} // verus!
