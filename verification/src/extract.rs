//! Reading a patch in unified-diff form into entries.
//!
//! The patch is read line by line. A line that begins with `--- `, followed
//! by one that begins with `+++ `, opens the section of one file; the hunks
//! that follow, each under a line that begins with `@@ `, belong to it. Any
//! other line outside a hunk is passed over, but a hunk without a section is
//! an error. Nothing is touched by reading: the result depends on the bytes
//! of the patch alone.

use vstd::prelude::*;
use crate::entry::{
    collect_incoming, collect_outgoing, entries_view, hunks_view, incoming_text, outgoing_text,
    DiffEntry, DiffEntryView, Hunk, HunkView, Operation, OperationView,
};
use crate::error::ApplyError;
use crate::header::{
    has_word_at, parse_header, read_header, starts_with, HeaderView, AT_SIGN, MINUS, PLUS, SPACE,
};
use crate::path::{is_valid_path, valid_path, SLASH};
use crate::text::{append_range, bytes_equal, lines_of, lines_view, split_lines, NEWLINE};

verus! {

/// The byte `\`, which begins a note on the line before it.
pub const BACKSLASH: u8 = 92;

/// The tab, after which a section's line may give a time.
pub const TAB: u8 = 9;

/// The carriage return.
pub const CARRIAGE_RETURN: u8 = 13;

/// What the line of a hunk's body before the one at hand was.
#[derive(Debug, Clone, Copy, PartialEq, Eq, Structural)]
pub enum LineKind {
    /// There was none, or it was a note.
    Nothing,
    /// A line that the change leaves as it is.
    Context,
    /// A line that the change takes away.
    Removed,
    /// A line that the change puts in.
    Added,
}

/// The body of a hunk: the lines of its region before and after the change,
/// and the index of the line past the body.
pub struct BodyView {
    pub before: Seq<Seq<u8>>,
    pub after: Seq<Seq<u8>>,
    pub next: int,
}

/// The line without its terminator.
pub open spec fn unterminated(line: Seq<u8>) -> Seq<u8> {
    if line.len() > 0 && line.last() == NEWLINE {
        line.drop_last()
    } else {
        line
    }
}

/// The lines, the last of them without its terminator.
pub open spec fn last_unterminated(lines: Seq<Seq<u8>>) -> Seq<Seq<u8>> {
    if lines.len() == 0 {
        lines
    } else {
        lines.update(lines.len() - 1, unterminated(lines.last()))
    }
}

/// The line without its first byte, which says what kind of line it is.
pub open spec fn payload_of(line: Seq<u8>) -> Seq<u8> {
    line.subrange(1, line.len() as int)
}

/// The body of a hunk, read from the line at index `j` on, with `old_left`
/// lines of the region before the change and `new_left` lines of the region
/// after it still to come.
///
/// A line that begins with a space belongs to both regions, one that begins
/// with `-` to the region before the change, one that begins with `+` to the
/// region after it. A line that begins with a backslash is a note on the
/// line before it: that line has no terminator. The body ends where both
/// regions are complete; a line of another kind, or the end of the patch,
/// before that is an error.
pub open spec fn parse_body(
    lines: Seq<Seq<u8>>,
    j: int,
    old_left: nat,
    new_left: nat,
    before: Seq<Seq<u8>>,
    after: Seq<Seq<u8>>,
    last: LineKind,
) -> Option<BodyView>
    decreases lines.len() - j,
{
    if 0 <= j < lines.len() && lines[j].len() > 0 && lines[j][0] == BACKSLASH && last
        != LineKind::Nothing {
        parse_body(
            lines,
            j + 1,
            old_left,
            new_left,
            if last == LineKind::Added {
                before
            } else {
                last_unterminated(before)
            },
            if last == LineKind::Removed {
                after
            } else {
                last_unterminated(after)
            },
            LineKind::Nothing,
        )
    } else if old_left == 0 && new_left == 0 {
        Some(BodyView { before, after, next: j })
    } else if j < 0 || j >= lines.len() || lines[j].len() == 0 {
        None
    } else if lines[j][0] == SPACE && old_left > 0 && new_left > 0 {
        parse_body(
            lines,
            j + 1,
            (old_left - 1) as nat,
            (new_left - 1) as nat,
            before.push(payload_of(lines[j])),
            after.push(payload_of(lines[j])),
            LineKind::Context,
        )
    } else if lines[j][0] == MINUS && old_left > 0 {
        parse_body(
            lines,
            j + 1,
            (old_left - 1) as nat,
            new_left,
            before.push(payload_of(lines[j])),
            after,
            LineKind::Removed,
        )
    } else if lines[j][0] == PLUS && new_left > 0 {
        parse_body(
            lines,
            j + 1,
            old_left,
            (new_left - 1) as nat,
            before,
            after.push(payload_of(lines[j])),
            LineKind::Added,
        )
    } else {
        None
    }
}

/// A body ends at or after the line it begins at, and within the patch.
pub proof fn lemma_body_bounds(
    lines: Seq<Seq<u8>>,
    j: int,
    old_left: nat,
    new_left: nat,
    before: Seq<Seq<u8>>,
    after: Seq<Seq<u8>>,
    last: LineKind,
)
    requires
        0 <= j <= lines.len(),
    ensures
        parse_body(lines, j, old_left, new_left, before, after, last) matches Some(body) ==> j
            <= body.next <= lines.len(),
    decreases lines.len() - j,
{
    if 0 <= j < lines.len() && lines[j].len() > 0 && lines[j][0] == BACKSLASH && last
        != LineKind::Nothing {
        lemma_body_bounds(
            lines,
            j + 1,
            old_left,
            new_left,
            if last == LineKind::Added {
                before
            } else {
                last_unterminated(before)
            },
            if last == LineKind::Removed {
                after
            } else {
                last_unterminated(after)
            },
            LineKind::Nothing,
        );
    } else if old_left == 0 && new_left == 0 {
    } else if j < 0 || j >= lines.len() || lines[j].len() == 0 {
    } else if lines[j][0] == SPACE && old_left > 0 && new_left > 0 {
        lemma_body_bounds(
            lines,
            j + 1,
            (old_left - 1) as nat,
            (new_left - 1) as nat,
            before.push(payload_of(lines[j])),
            after.push(payload_of(lines[j])),
            LineKind::Context,
        );
    } else if lines[j][0] == MINUS && old_left > 0 {
        lemma_body_bounds(
            lines,
            j + 1,
            (old_left - 1) as nat,
            new_left,
            before.push(payload_of(lines[j])),
            after,
            LineKind::Removed,
        );
    } else if lines[j][0] == PLUS && new_left > 0 {
        lemma_body_bounds(
            lines,
            j + 1,
            old_left,
            (new_left - 1) as nat,
            before,
            after.push(payload_of(lines[j])),
            LineKind::Added,
        );
    }
}

/// The body of a hunk as it was read.
#[derive(Debug, Clone, PartialEq, Eq)]
pub struct Body {
    pub before: Vec<Vec<u8>>,
    pub after: Vec<Vec<u8>>,
    pub next: usize,
}

impl View for Body {
    type V = BodyView;

    open spec fn view(&self) -> BodyView {
        BodyView {
            before: lines_view(self.before@),
            after: lines_view(self.after@),
            next: self.next as int,
        }
    }
}

/// What a body holds, if one was read.
pub open spec fn body_view(body: Option<Body>) -> Option<BodyView> {
    match body {
        Some(b) => Some(b@),
        None => None,
    }
}

/// Takes the terminator off the last of the lines.
pub fn unterminate_last(lines: &mut Vec<Vec<u8>>)
    ensures
        lines_view(final(lines)@) == last_unterminated(lines_view(old(lines)@)),
{
    match lines.pop() {
        None => {
            assert(lines_view(lines@) =~= last_unterminated(lines_view(old(lines)@)));
        },
        Some(line) => {
            let mut line = line;
            let ghost whole = line@;
            if line.len() > 0 && line[line.len() - 1] == NEWLINE {
                line.pop();
                assert(line@ =~= whole.drop_last());
            }
            lines.push(line);
            assert(lines_view(lines@) =~= last_unterminated(lines_view(old(lines)@)));
        },
    }
}

/// The line without its first byte.
fn payload(line: &Vec<u8>) -> (rest: Vec<u8>)
    requires
        line.len() > 0,
    ensures
        rest@ == payload_of(line@),
{
    let mut rest: Vec<u8> = Vec::new();
    append_range(&mut rest, line, 1, line.len());
    rest
}

/// Reads the body of a hunk from the line at index `from` on, for a header
/// that announced `old_count` lines before the change and `new_count` after
/// it.
fn read_body(lines: &Vec<Vec<u8>>, from: usize, old_count: usize, new_count: usize) -> (body:
    Option<Body>)
    requires
        from <= lines.len(),
    ensures
        body_view(body) == parse_body(
            lines_view(lines@),
            from as int,
            old_count as nat,
            new_count as nat,
            Seq::empty(),
            Seq::empty(),
            LineKind::Nothing,
        ),
        body matches Some(b) ==> from <= b.next <= lines.len(),
{
    let ghost ls = lines_view(lines@);
    let ghost whole = parse_body(
        ls,
        from as int,
        old_count as nat,
        new_count as nat,
        Seq::empty(),
        Seq::empty(),
        LineKind::Nothing,
    );
    let mut before: Vec<Vec<u8>> = Vec::new();
    let mut after: Vec<Vec<u8>> = Vec::new();
    let mut old_left: usize = old_count;
    let mut new_left: usize = new_count;
    let mut last = LineKind::Nothing;
    let mut j: usize = from;
    assert(lines_view(before@) =~= Seq::<Seq<u8>>::empty());
    assert(lines_view(after@) =~= Seq::<Seq<u8>>::empty());
    loop
        invariant
            from <= j <= lines.len(),
            ls == lines_view(lines@),
            whole == parse_body(
                ls,
                from as int,
                old_count as nat,
                new_count as nat,
                Seq::empty(),
                Seq::empty(),
                LineKind::Nothing,
            ),
            whole == parse_body(
                ls,
                j as int,
                old_left as nat,
                new_left as nat,
                lines_view(before@),
                lines_view(after@),
                last,
            ),
        decreases lines.len() - j,
    {
        let ghost bv = lines_view(before@);
        let ghost av = lines_view(after@);
        if j < lines.len() && lines[j].len() > 0 && lines[j][0] == BACKSLASH && last
            != LineKind::Nothing {
            if last != LineKind::Added {
                unterminate_last(&mut before);
            }
            if last != LineKind::Removed {
                unterminate_last(&mut after);
            }
            last = LineKind::Nothing;
            j += 1;
            continue ;
        }
        if old_left == 0 && new_left == 0 {
            return Some(Body { before, after, next: j });
        }
        if j >= lines.len() || lines[j].len() == 0 {
            return None;
        }
        let line = &lines[j];
        assert(ls[j as int] == line@);
        let kind = line[0];
        if kind == SPACE && old_left > 0 && new_left > 0 {
            before.push(payload(line));
            after.push(payload(line));
            old_left -= 1;
            new_left -= 1;
            last = LineKind::Context;
        } else if kind == MINUS && old_left > 0 {
            before.push(payload(line));
            old_left -= 1;
            last = LineKind::Removed;
        } else if kind == PLUS && new_left > 0 {
            after.push(payload(line));
            new_left -= 1;
            last = LineKind::Added;
        } else {
            return None;
        }
        proof {
            if kind == SPACE || kind == MINUS {
                assert(lines_view(before@) =~= bv.push(payload_of(line@)));
            }
            if kind == SPACE || kind == PLUS {
                assert(lines_view(after@) =~= av.push(payload_of(line@)));
            }
        }
        j += 1;
    }
}

/// The bytes `@@ `, with which the first line of a hunk begins.
pub open spec fn hunk_prefix() -> Seq<u8> {
    seq![AT_SIGN, AT_SIGN, SPACE]
}

/// The index, counted from zero, of the line at which a hunk's region began.
/// A header counts lines from one; for a region without lines it names the
/// line before the region.
pub open spec fn anchor_of(header: HeaderView) -> nat {
    if header.old_count == 0 {
        header.old_start
    } else {
        (header.old_start - 1) as nat
    }
}

/// The hunks of a section, and the index of the line past them.
pub struct HunksView {
    pub hunks: Seq<HunkView>,
    pub next: int,
}

/// The hunks that follow one another from the line at index `j` on, added
/// to `hunks`.
pub open spec fn parse_hunks(lines: Seq<Seq<u8>>, j: int, hunks: Seq<HunkView>) -> Option<
    HunksView,
>
    decreases lines.len() - j,
    via parse_hunks_decreases
{
    if 0 <= j < lines.len() && starts_with(lines[j], hunk_prefix()) {
        match parse_header(lines[j]) {
            None => None,
            Some(header) => match parse_body(
                lines,
                j + 1,
                header.old_count,
                header.new_count,
                Seq::empty(),
                Seq::empty(),
                LineKind::Nothing,
            ) {
                None => None,
                Some(body) => parse_hunks(
                    lines,
                    body.next,
                    hunks.push(
                        HunkView {
                            anchor: anchor_of(header),
                            before: body.before,
                            after: body.after,
                        },
                    ),
                ),
            },
        }
    } else {
        Some(HunksView { hunks, next: j })
    }
}

#[via_fn]
proof fn parse_hunks_decreases(lines: Seq<Seq<u8>>, j: int, hunks: Seq<HunkView>) {
    if 0 <= j < lines.len() && starts_with(lines[j], hunk_prefix()) {
        match parse_header(lines[j]) {
            None => {},
            Some(header) => {
                lemma_body_bounds(
                    lines,
                    j + 1,
                    header.old_count,
                    header.new_count,
                    Seq::empty(),
                    Seq::empty(),
                    LineKind::Nothing,
                );
            },
        }
    }
}

/// The hunks of a section end at or after the line they begin at, and
/// within the patch.
pub proof fn lemma_hunks_bounds(lines: Seq<Seq<u8>>, j: int, hunks: Seq<HunkView>)
    requires
        0 <= j <= lines.len(),
    ensures
        parse_hunks(lines, j, hunks) matches Some(found) ==> j <= found.next <= lines.len(),
    decreases lines.len() - j,
{
    if 0 <= j < lines.len() && starts_with(lines[j], hunk_prefix()) {
        match parse_header(lines[j]) {
            None => {},
            Some(header) => {
                lemma_body_bounds(
                    lines,
                    j + 1,
                    header.old_count,
                    header.new_count,
                    Seq::empty(),
                    Seq::empty(),
                    LineKind::Nothing,
                );
                match parse_body(
                    lines,
                    j + 1,
                    header.old_count,
                    header.new_count,
                    Seq::empty(),
                    Seq::empty(),
                    LineKind::Nothing,
                ) {
                    None => {},
                    Some(body) => {
                        lemma_hunks_bounds(
                            lines,
                            body.next,
                            hunks.push(
                                HunkView {
                                    anchor: anchor_of(header),
                                    before: body.before,
                                    after: body.after,
                                },
                            ),
                        );
                    },
                }
            },
        }
    }
}

/// The hunks of a section as they were read.
#[derive(Debug, Clone, PartialEq, Eq)]
pub struct Hunks {
    pub hunks: Vec<Hunk>,
    pub next: usize,
}

impl View for Hunks {
    type V = HunksView;

    open spec fn view(&self) -> HunksView {
        HunksView { hunks: hunks_view(self.hunks@), next: self.next as int }
    }
}

/// What the hunks of a section hold, if they were read.
pub open spec fn found_hunks_view(found: Option<Hunks>) -> Option<HunksView> {
    match found {
        Some(f) => Some(f@),
        None => None,
    }
}

/// Reads the hunks that follow one another from the line at index `from`
/// on.
fn read_hunks(lines: &Vec<Vec<u8>>, from: usize) -> (found: Option<Hunks>)
    requires
        from <= lines.len(),
    ensures
        found_hunks_view(found) == parse_hunks(lines_view(lines@), from as int, Seq::empty()),
        found matches Some(f) ==> from <= f.next <= lines.len(),
{
    let ghost ls = lines_view(lines@);
    let ghost whole = parse_hunks(ls, from as int, Seq::empty());
    let prefix: Vec<u8> = vec![AT_SIGN, AT_SIGN, SPACE];
    assert(prefix@ =~= hunk_prefix());
    let mut hunks: Vec<Hunk> = Vec::new();
    let mut j: usize = from;
    assert(hunks_view(hunks@) =~= Seq::<HunkView>::empty());
    while j < lines.len() && has_word_at(&lines[j], 0, &prefix)
        invariant
            from <= j <= lines.len(),
            ls == lines_view(lines@),
            prefix@ == hunk_prefix(),
            whole == parse_hunks(ls, from as int, Seq::empty()),
            whole == parse_hunks(ls, j as int, hunks_view(hunks@)),
        decreases lines.len() - j,
    {
        assert(ls[j as int] == lines@[j as int]@);
        let header = match read_header(&lines[j]) {
            None => {
                return None;
            },
            Some(header) => header,
        };
        let body = match read_body(lines, j + 1, header.old_count, header.new_count) {
            None => {
                return None;
            },
            Some(body) => body,
        };
        let anchor: usize = if header.old_count == 0 {
            header.old_start
        } else {
            header.old_start - 1
        };
        let ghost so_far = hunks_view(hunks@);
        let next = body.next;
        let hunk = Hunk { anchor, before: body.before, after: body.after };
        let ghost added = hunk@;
        hunks.push(hunk);
        assert(hunks_view(hunks@) =~= so_far.push(added));
        j = next;
    }
    assert(j < lines.len() ==> ls[j as int] == lines@[j as int]@);
    Some(Hunks { hunks, next: j })
}

/// The bytes `--- `, with which the first line of a section begins. The
/// line names the file before the change.
pub open spec fn old_prefix() -> Seq<u8> {
    seq![MINUS, MINUS, MINUS, SPACE]
}

/// The bytes `+++ `, with which the second line of a section begins. The
/// line names the file after the change.
pub open spec fn new_prefix() -> Seq<u8> {
    seq![PLUS, PLUS, PLUS, SPACE]
}

/// The name `/dev/null`, which stands for a file that is not there.
pub open spec fn null_name() -> Seq<u8> {
    seq![47u8, 100u8, 101u8, 118u8, 47u8, 110u8, 117u8, 108u8, 108u8]
}

/// Whether a byte ends the name in a section's line.
pub open spec fn ends_name(byte: u8) -> bool {
    byte == TAB || byte == NEWLINE || byte == CARRIAGE_RETURN
}

/// The index at which the name that holds index `from` ends: at a tab, at
/// the end of the line, or at the end of the patch.
pub open spec fn name_end(line: Seq<u8>, from: int) -> int
    decreases line.len() - from,
{
    if 0 <= from < line.len() && !ends_name(line[from]) {
        name_end(line, from + 1)
    } else {
        from
    }
}

/// The name in a section's line: what follows the four bytes of its prefix.
pub open spec fn header_name(line: Seq<u8>) -> Seq<u8> {
    line.subrange(4, name_end(line, 4))
}

/// The index of the first `/` in `name` at or after index `from`, or the
/// length of `name`.
pub open spec fn slash_index(name: Seq<u8>, from: int) -> int
    decreases name.len() - from,
{
    if 0 <= from < name.len() && name[from] != SLASH {
        slash_index(name, from + 1)
    } else {
        from
    }
}

/// The path that a name stands for: the name without its first component,
/// where that is a relative, normalized path. A name that begins with `/`
/// is absolute and stands for none.
pub open spec fn path_of(name: Seq<u8>) -> Option<Seq<u8>> {
    let at = slash_index(name, 0);
    if at == 0 || at >= name.len() {
        None
    } else if valid_path(name.subrange(at + 1, name.len() as int)) {
        Some(name.subrange(at + 1, name.len() as int))
    } else {
        None
    }
}

/// No hunk expects to find a line.
pub open spec fn no_lines_before(hunks: Seq<HunkView>) -> bool {
    forall|k: int| 0 <= k < hunks.len() ==> (#[trigger] hunks[k]).before.len() == 0
}

/// No hunk puts a line in place.
pub open spec fn no_lines_after(hunks: Seq<HunkView>) -> bool {
    forall|k: int| 0 <= k < hunks.len() ==> (#[trigger] hunks[k]).after.len() == 0
}

/// Whether the regions of the hunks follow one another in the file that the
/// change was made from: each begins at or after the end of the one before.
pub open spec fn hunks_in_order(hunks: Seq<HunkView>) -> bool {
    forall|k: int|
        0 < k < hunks.len() ==> hunks[k - 1].anchor + hunks[k - 1].before.len() <= (
        #[trigger] hunks[k]).anchor
}

/// The entry of a section with these two lines and these hunks.
///
/// A section whose first line names no file creates the file that its second
/// line names: its hunks expect nothing, and what they put in place is the
/// file's content. A section whose second line names no file removes the
/// file that its first line names: its hunks put nothing in place, and what
/// they expect is the file's content. Any other section modifies the file
/// that both lines name, by hunks whose regions follow one another.
pub open spec fn section_entry(old_line: Seq<u8>, new_line: Seq<u8>, hunks: Seq<HunkView>) -> Option<
    DiffEntryView,
> {
    let old = header_name(old_line);
    let new = header_name(new_line);
    if old == null_name() {
        if new == null_name() || path_of(new).is_none() || !no_lines_before(hunks) {
            None
        } else {
            Some(
                DiffEntryView {
                    path: path_of(new).unwrap(),
                    operation: OperationView::Create { content: incoming_text(hunks, 0) },
                },
            )
        }
    } else if new == null_name() {
        if path_of(old).is_none() || !no_lines_after(hunks) {
            None
        } else {
            Some(
                DiffEntryView {
                    path: path_of(old).unwrap(),
                    operation: OperationView::Delete { expected: outgoing_text(hunks, 0) },
                },
            )
        }
    } else if path_of(old).is_none() || path_of(new) != path_of(old) || !hunks_in_order(hunks) {
        None
    } else {
        Some(DiffEntryView { path: path_of(new).unwrap(), operation: OperationView::Modify { hunks } })
    }
}

/// Whether a section opens at the line at index `i`.
pub open spec fn opens_section(lines: Seq<Seq<u8>>, i: int) -> bool {
    &&& 0 <= i
    &&& i + 1 < lines.len()
    &&& starts_with(lines[i], old_prefix())
    &&& starts_with(lines[i + 1], new_prefix())
}

/// The entries of the sections from the line at index `i` on, added to
/// `entries`.
pub open spec fn parse_sections(lines: Seq<Seq<u8>>, i: int, entries: Seq<DiffEntryView>) -> Option<
    Seq<DiffEntryView>,
>
    decreases lines.len() - i,
    via parse_sections_decreases
{
    if i < 0 || i >= lines.len() {
        Some(entries)
    } else if opens_section(lines, i) {
        match parse_hunks(lines, i + 2, Seq::empty()) {
            None => None,
            Some(found) => match section_entry(lines[i], lines[i + 1], found.hunks) {
                None => None,
                Some(entry) => parse_sections(lines, found.next, entries.push(entry)),
            },
        }
    } else if starts_with(lines[i], hunk_prefix()) {
        None
    } else {
        parse_sections(lines, i + 1, entries)
    }
}

#[via_fn]
proof fn parse_sections_decreases(lines: Seq<Seq<u8>>, i: int, entries: Seq<DiffEntryView>) {
    if 0 <= i < lines.len() && opens_section(lines, i) {
        lemma_hunks_bounds(lines, i + 2, Seq::empty());
    }
}

/// The entries that a patch holds, in the order of their sections, or
/// nothing where the patch is malformed.
pub open spec fn parse_patch(patch: Seq<u8>) -> Option<Seq<DiffEntryView>> {
    parse_sections(lines_of(patch), 0, Seq::empty())
}

/// The name in a section's line.
fn read_name(line: &Vec<u8>) -> (name: Vec<u8>)
    requires
        line.len() >= 4,
    ensures
        name@ == header_name(line@),
{
    let mut end: usize = 4;
    while end < line.len() && line[end] != TAB && line[end] != NEWLINE && line[end]
        != CARRIAGE_RETURN
        invariant
            4 <= end <= line.len(),
            name_end(line@, 4) == name_end(line@, end as int),
        decreases line.len() - end,
    {
        end += 1;
    }
    let mut name: Vec<u8> = Vec::new();
    append_range(&mut name, line, 4, end);
    name
}

/// What a path holds, if there is one.
pub open spec fn path_view(path: Option<Vec<u8>>) -> Option<Seq<u8>> {
    match path {
        Some(p) => Some(p@),
        None => None,
    }
}

/// The path that a name stands for.
pub fn read_path(name: &Vec<u8>) -> (path: Option<Vec<u8>>)
    ensures
        path_view(path) == path_of(name@),
{
    let mut at: usize = 0;
    while at < name.len() && name[at] != SLASH
        invariant
            at <= name.len(),
            slash_index(name@, 0) == slash_index(name@, at as int),
        decreases name.len() - at,
    {
        at += 1;
    }
    if at == 0 || at >= name.len() {
        return None;
    }
    let mut path: Vec<u8> = Vec::new();
    append_range(&mut path, name, at + 1, name.len());
    if is_valid_path(&path) {
        Some(path)
    } else {
        None
    }
}

/// Whether no hunk expects to find a line.
pub fn expects_nothing(hunks: &Vec<Hunk>) -> (nothing: bool)
    ensures
        nothing == no_lines_before(hunks_view(hunks@)),
{
    let mut k: usize = 0;
    while k < hunks.len()
        invariant
            k <= hunks.len(),
            forall|i: int| 0 <= i < k ==> (#[trigger] hunks_view(hunks@)[i]).before.len() == 0,
        decreases hunks.len() - k,
    {
        if hunks[k].before.len() > 0 {
            assert(hunks_view(hunks@)[k as int].before.len() > 0);
            return false;
        }
        k += 1;
    }
    true
}

/// Whether no hunk puts a line in place.
pub fn brings_nothing(hunks: &Vec<Hunk>) -> (nothing: bool)
    ensures
        nothing == no_lines_after(hunks_view(hunks@)),
{
    let mut k: usize = 0;
    while k < hunks.len()
        invariant
            k <= hunks.len(),
            forall|i: int| 0 <= i < k ==> (#[trigger] hunks_view(hunks@)[i]).after.len() == 0,
        decreases hunks.len() - k,
    {
        if hunks[k].after.len() > 0 {
            assert(hunks_view(hunks@)[k as int].after.len() > 0);
            return false;
        }
        k += 1;
    }
    true
}

/// Whether the regions of the hunks follow one another.
pub fn follow_one_another(hunks: &Vec<Hunk>) -> (ordered: bool)
    ensures
        ordered == hunks_in_order(hunks_view(hunks@)),
{
    let ghost hs = hunks_view(hunks@);
    let mut k: usize = 1;
    while k < hunks.len()
        invariant
            1 <= k,
            hs == hunks_view(hunks@),
            forall|i: int|
                0 < i < k && i < hs.len() ==> hs[i - 1].anchor + hs[i - 1].before.len() <= (
                #[trigger] hs[i]).anchor,
        decreases hunks.len() - k,
    {
        let earlier = &hunks[k - 1];
        let later = &hunks[k];
        assert(hs[k - 1] == earlier@ && hs[k as int] == later@);
        if later.anchor < earlier.anchor || later.anchor - earlier.anchor < earlier.before.len() {
            return false;
        }
        k += 1;
    }
    true
}

/// What an entry holds, if there is one.
pub open spec fn entry_view(entry: Option<DiffEntry>) -> Option<DiffEntryView> {
    match entry {
        Some(e) => Some(e@),
        None => None,
    }
}

/// Makes the entry of a section from its two lines and its hunks.
fn make_entry(old_line: &Vec<u8>, new_line: &Vec<u8>, hunks: Vec<Hunk>) -> (entry: Option<
    DiffEntry,
>)
    requires
        old_line.len() >= 4,
        new_line.len() >= 4,
    ensures
        entry_view(entry) == section_entry(old_line@, new_line@, hunks_view(hunks@)),
{
    let null: Vec<u8> = vec![47u8, 100u8, 101u8, 118u8, 47u8, 110u8, 117u8, 108u8, 108u8];
    assert(null@ =~= null_name());
    let old = read_name(old_line);
    let new = read_name(new_line);
    if bytes_equal(&old, &null) {
        if bytes_equal(&new, &null) || !expects_nothing(&hunks) {
            return None;
        }
        match read_path(&new) {
            None => None,
            Some(path) => Some(
                DiffEntry { path, operation: Operation::Create { content: collect_incoming(&hunks) } },
            ),
        }
    } else if bytes_equal(&new, &null) {
        if !brings_nothing(&hunks) {
            return None;
        }
        match read_path(&old) {
            None => None,
            Some(path) => Some(
                DiffEntry {
                    path,
                    operation: Operation::Delete { expected: collect_outgoing(&hunks) },
                },
            ),
        }
    } else {
        match read_path(&old) {
            None => None,
            Some(old_path) => match read_path(&new) {
                None => None,
                Some(path) => if bytes_equal(&old_path, &path) && follow_one_another(&hunks) {
                    Some(DiffEntry { path, operation: Operation::Modify { hunks } })
                } else {
                    None
                },
            },
        }
    }
}

/// Reads a patch into its entries, in the order of their sections. Fails
/// where the patch is malformed: a hunk stands outside a section, its header
/// cannot be read, its body does not hold the lines that its header
/// announces, the hunks of a section overlap or are out of order, or a
/// section does not name a path within the tree.
pub fn extract_entries(patch: &Vec<u8>) -> (result: Result<Vec<DiffEntry>, ApplyError>)
    ensures
        match result {
            Ok(entries) => parse_patch(patch@) == Some(entries_view(entries@)),
            Err(error) => error == ApplyError::MalformedDiff && parse_patch(patch@).is_none(),
        },
{
    let lines = split_lines(patch);
    let ghost ls = lines_view(lines@);
    let old_word: Vec<u8> = vec![MINUS, MINUS, MINUS, SPACE];
    let new_word: Vec<u8> = vec![PLUS, PLUS, PLUS, SPACE];
    let hunk_word: Vec<u8> = vec![AT_SIGN, AT_SIGN, SPACE];
    assert(old_word@ =~= old_prefix());
    assert(new_word@ =~= new_prefix());
    assert(hunk_word@ =~= hunk_prefix());
    let mut entries: Vec<DiffEntry> = Vec::new();
    let mut i: usize = 0;
    assert(entries_view(entries@) =~= Seq::<DiffEntryView>::empty());
    while i < lines.len()
        invariant
            i <= lines.len(),
            ls == lines_view(lines@),
            ls == lines_of(patch@),
            old_word@ == old_prefix(),
            new_word@ == new_prefix(),
            hunk_word@ == hunk_prefix(),
            parse_patch(patch@) == parse_sections(ls, i as int, entries_view(entries@)),
        decreases lines.len() - i,
    {
        assert(ls[i as int] == lines@[i as int]@);
        if i + 1 < lines.len() && has_word_at(&lines[i], 0, &old_word) && has_word_at(
            &lines[i + 1],
            0,
            &new_word,
        ) {
            assert(ls[i + 1] == lines@[i + 1]@);
            assert(opens_section(ls, i as int));
            let found = match read_hunks(&lines, i + 2) {
                None => {
                    return Err(ApplyError::MalformedDiff);
                },
                Some(found) => found,
            };
            let next = found.next;
            let entry = match make_entry(&lines[i], &lines[i + 1], found.hunks) {
                None => {
                    return Err(ApplyError::MalformedDiff);
                },
                Some(entry) => entry,
            };
            let ghost so_far = entries_view(entries@);
            let ghost added = entry@;
            entries.push(entry);
            assert(entries_view(entries@) =~= so_far.push(added));
            i = next;
        } else {
            assert(i + 1 < lines.len() ==> ls[i + 1] == lines@[i + 1]@);
            assert(!opens_section(ls, i as int));
            if has_word_at(&lines[i], 0, &hunk_word) {
                return Err(ApplyError::MalformedDiff);
            }
            i += 1;
        }
    }
    Ok(entries)
}

/// Every path in `entries` is relative and normalized.
pub open spec fn paths_within_tree(entries: Seq<DiffEntryView>) -> bool {
    forall|k: int| 0 <= k < entries.len() ==> valid_path((#[trigger] entries[k]).path)
}

/// Sections add only entries whose paths are relative and normalized.
pub proof fn lemma_sections_stay_within_tree(
    lines: Seq<Seq<u8>>,
    i: int,
    entries: Seq<DiffEntryView>,
)
    requires
        0 <= i,
        paths_within_tree(entries),
    ensures
        parse_sections(lines, i, entries) matches Some(all) ==> paths_within_tree(all),
    decreases lines.len() - i,
{
    if i < lines.len() {
        if opens_section(lines, i) {
            lemma_hunks_bounds(lines, i + 2, Seq::empty());
            match parse_hunks(lines, i + 2, Seq::empty()) {
                None => {},
                Some(found) => match section_entry(lines[i], lines[i + 1], found.hunks) {
                    None => {},
                    Some(entry) => {
                        let grown = entries.push(entry);
                        assert forall|k: int| 0 <= k < grown.len() implies valid_path(
                            (#[trigger] grown[k]).path,
                        ) by {
                            if k < entries.len() {
                                assert(grown[k] == entries[k]);
                            }
                        }
                        lemma_sections_stay_within_tree(lines, found.next, grown);
                    },
                },
            }
        } else if !starts_with(lines[i], hunk_prefix()) {
            lemma_sections_stay_within_tree(lines, i + 1, entries);
        }
    }
}

/// Every entry that is read from a patch names a path that is relative and
/// normalized: no entry reaches outside the tree.
pub proof fn lemma_extracted_paths_stay_within_tree(patch: Seq<u8>)
    ensures
        parse_patch(patch) matches Some(entries) ==> paths_within_tree(entries),
{
    lemma_sections_stay_within_tree(lines_of(patch), 0, Seq::empty());
}

} // verus!
