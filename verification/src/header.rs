//! The first line of a hunk: `@@ -a,b +c,d @@`.
//!
//! The line names two ranges of lines, the hunk's region in the file before
//! the change and its region in the file after it. A range is the number of
//! its first line, counted from one, and the number of its lines.

use vstd::prelude::*;

verus! {

/// The byte ` `, which begins a line that the change leaves as it is.
pub const SPACE: u8 = 32;

/// The byte `+`, which begins a line that the change puts in.
pub const PLUS: u8 = 43;

/// The byte `,`, which parts the two numbers of a range.
pub const COMMA: u8 = 44;

/// The byte `-`, which begins a line that the change takes away.
pub const MINUS: u8 = 45;

/// The byte `0`.
pub const DIGIT_ZERO: u8 = 48;

/// The byte `9`.
pub const DIGIT_NINE: u8 = 57;

/// The byte `@`.
pub const AT_SIGN: u8 = 64;

/// The most digits that a number in a hunk's header may have.
pub const MAX_DIGITS: usize = 9;

/// Whether `line` begins with `prefix`.
pub open spec fn starts_with(line: Seq<u8>, prefix: Seq<u8>) -> bool {
    prefix.len() <= line.len() && line.subrange(0, prefix.len() as int) == prefix
}

/// Whether `line` holds `word` from index `at` on.
pub open spec fn holds_at(line: Seq<u8>, at: int, word: Seq<u8>) -> bool {
    0 <= at && at + word.len() <= line.len() && line.subrange(at, at + word.len()) == word
}

/// Whether a byte is a decimal digit.
pub open spec fn is_digit(byte: u8) -> bool {
    DIGIT_ZERO <= byte <= DIGIT_NINE
}

/// The index past the digits that stand in `line` from index `from` on.
pub open spec fn digits_end(line: Seq<u8>, from: int) -> int
    decreases line.len() - from,
{
    if 0 <= from < line.len() && is_digit(line[from]) {
        digits_end(line, from + 1)
    } else {
        from
    }
}

/// The number that the digits of `line` from index `from` up to `to` spell.
pub open spec fn number_at(line: Seq<u8>, from: int, to: int) -> nat
    decreases to - from,
{
    if to <= from {
        0
    } else {
        (number_at(line, from, to - 1) * 10 + (line[to - 1] - DIGIT_ZERO)) as nat
    }
}

/// A number read from a line, and the index past it.
pub struct NumberView {
    pub value: nat,
    pub next: int,
}

/// The number that stands in `line` at index `from`: one to nine digits.
pub open spec fn parse_number(line: Seq<u8>, from: int) -> Option<NumberView> {
    let end = digits_end(line, from);
    if end == from || end - from > MAX_DIGITS {
        None
    } else {
        Some(NumberView { value: number_at(line, from, end), next: end })
    }
}

/// A range of lines read from a hunk's header, and the index past it.
pub struct RangeView {
    pub start: nat,
    pub count: nat,
    pub next: int,
}

/// The range that stands in `line` at index `from`: the number of the first
/// line and, after a comma, the number of lines, which is one where it is
/// left out.
pub open spec fn parse_range(line: Seq<u8>, from: int) -> Option<RangeView> {
    match parse_number(line, from) {
        None => None,
        Some(start) => if start.next < line.len() && line[start.next] == COMMA {
            match parse_number(line, start.next + 1) {
                None => None,
                Some(count) => Some(
                    RangeView { start: start.value, count: count.value, next: count.next },
                ),
            }
        } else {
            Some(RangeView { start: start.value, count: 1, next: start.next })
        },
    }
}

/// What a hunk's header says: where the region began and how many lines it
/// had, in the file before the change and in the file after it.
pub struct HeaderView {
    pub old_start: nat,
    pub old_count: nat,
    pub new_start: nat,
    pub new_count: nat,
}

/// The bytes `@@ -`, with which a hunk's header begins.
pub open spec fn header_opening() -> Seq<u8> {
    seq![AT_SIGN, AT_SIGN, SPACE, MINUS]
}

/// The bytes ` +`, which part the two ranges of a hunk's header.
pub open spec fn header_middle() -> Seq<u8> {
    seq![SPACE, PLUS]
}

/// The bytes ` @@`, which close the ranges of a hunk's header.
pub open spec fn header_closing() -> Seq<u8> {
    seq![SPACE, AT_SIGN, AT_SIGN]
}

/// What the header `@@ -a,b +c,d @@` says. A range of lines in a file that
/// has them starts at line one or later.
pub open spec fn parse_header(line: Seq<u8>) -> Option<HeaderView> {
    if !starts_with(line, header_opening()) {
        None
    } else {
        match parse_range(line, 4) {
            None => None,
            Some(old) => if !holds_at(line, old.next, header_middle()) {
                None
            } else {
                match parse_range(line, old.next + 2) {
                    None => None,
                    Some(new) => if !holds_at(line, new.next, header_closing()) {
                        None
                    } else if old.count > 0 && old.start == 0 {
                        None
                    } else if new.count > 0 && new.start == 0 {
                        None
                    } else {
                        Some(
                            HeaderView {
                                old_start: old.start,
                                old_count: old.count,
                                new_start: new.start,
                                new_count: new.count,
                            },
                        )
                    },
                }
            },
        }
    }
}

/// The greatest number that `digits` digits can spell.
pub open spec fn greatest_number(digits: int) -> nat {
    if digits <= 0 {
        0
    } else if digits == 1 {
        9
    } else if digits == 2 {
        99
    } else if digits == 3 {
        999
    } else if digits == 4 {
        9999
    } else if digits == 5 {
        99999
    } else if digits == 6 {
        999999
    } else if digits == 7 {
        9999999
    } else if digits == 8 {
        99999999
    } else {
        999999999
    }
}

/// A number read from a line, and the index past it.
#[derive(Debug, Clone, PartialEq, Eq)]
pub struct Number {
    pub value: usize,
    pub next: usize,
}

impl View for Number {
    type V = NumberView;

    open spec fn view(&self) -> NumberView {
        NumberView { value: self.value as nat, next: self.next as int }
    }
}

/// What a number holds, if one was read.
pub open spec fn number_view(number: Option<Number>) -> Option<NumberView> {
    match number {
        Some(n) => Some(n@),
        None => None,
    }
}

/// Whether `line` holds `word` from index `at` on.
pub fn has_word_at(line: &Vec<u8>, at: usize, word: &Vec<u8>) -> (found: bool)
    ensures
        found == holds_at(line@, at as int, word@),
{
    if word.len() > line.len() || at > line.len() - word.len() {
        return false;
    }
    let mut i: usize = 0;
    while i < word.len()
        invariant
            i <= word.len(),
            at + word.len() <= line.len(),
            forall|j: int| 0 <= j < i ==> line@[at + j] == word@[j],
        decreases word.len() - i,
    {
        if line[at + i] != word[i] {
            assert(line@.subrange(at as int, at + word.len())[i as int] != word@[i as int]);
            return false;
        }
        i += 1;
    }
    assert(line@.subrange(at as int, at + word.len()) =~= word@);
    true
}

/// Reads the number that stands in `line` at index `from`.
pub fn read_number(line: &Vec<u8>, from: usize) -> (number: Option<Number>)
    ensures
        number_view(number) == parse_number(line@, from as int),
        number matches Some(n) ==> from < n.next <= line.len() && n.value <= 999999999,
{
    let mut value: usize = 0;
    let mut i: usize = from;
    while i < line.len() && DIGIT_ZERO <= line[i] && line[i] <= DIGIT_NINE
        invariant
            from <= i,
            i <= line.len() || i == from,
            i - from <= MAX_DIGITS,
            digits_end(line@, from as int) == digits_end(line@, i as int),
            value == number_at(line@, from as int, i as int),
            value <= greatest_number(i - from),
        decreases line.len() - i,
    {
        if i - from == MAX_DIGITS {
            proof {
                lemma_digits_end_bounds(line@, i as int);
            }
            return None;
        }
        value = value * 10 + (line[i] - DIGIT_ZERO) as usize;
        i += 1;
    }
    if i == from {
        None
    } else {
        Some(Number { value, next: i })
    }
}

/// The digits from an index on end at or after it.
pub proof fn lemma_digits_end_bounds(line: Seq<u8>, from: int)
    requires
        0 <= from,
    ensures
        from <= digits_end(line, from),
        from < line.len() ==> digits_end(line, from) <= line.len(),
        from < line.len() && is_digit(line[from]) ==> from < digits_end(line, from),
    decreases line.len() - from,
{
    if from < line.len() && is_digit(line[from]) {
        lemma_digits_end_bounds(line, from + 1);
    }
}

/// A range of lines read from a hunk's header, and the index past it.
#[derive(Debug, Clone, PartialEq, Eq)]
pub struct Range {
    pub start: usize,
    pub count: usize,
    pub next: usize,
}

impl View for Range {
    type V = RangeView;

    open spec fn view(&self) -> RangeView {
        RangeView { start: self.start as nat, count: self.count as nat, next: self.next as int }
    }
}

/// What a range holds, if one was read.
pub open spec fn range_view(range: Option<Range>) -> Option<RangeView> {
    match range {
        Some(r) => Some(r@),
        None => None,
    }
}

/// Reads the range that stands in `line` at index `from`.
pub fn read_range(line: &Vec<u8>, from: usize) -> (range: Option<Range>)
    ensures
        range_view(range) == parse_range(line@, from as int),
        range matches Some(r) ==> r.next <= line.len() && r.start <= 999999999 && r.count
            <= 999999999,
{
    match read_number(line, from) {
        None => None,
        Some(start) => {
            if start.next < line.len() && line[start.next] == COMMA {
                match read_number(line, start.next + 1) {
                    None => None,
                    Some(count) => Some(
                        Range { start: start.value, count: count.value, next: count.next },
                    ),
                }
            } else {
                Some(Range { start: start.value, count: 1, next: start.next })
            }
        },
    }
}

/// What a hunk's header says.
#[derive(Debug, Clone, PartialEq, Eq)]
pub struct Header {
    pub old_start: usize,
    pub old_count: usize,
    pub new_start: usize,
    pub new_count: usize,
}

impl View for Header {
    type V = HeaderView;

    open spec fn view(&self) -> HeaderView {
        HeaderView {
            old_start: self.old_start as nat,
            old_count: self.old_count as nat,
            new_start: self.new_start as nat,
            new_count: self.new_count as nat,
        }
    }
}

/// What a header holds, if one was read.
pub open spec fn header_view(header: Option<Header>) -> Option<HeaderView> {
    match header {
        Some(h) => Some(h@),
        None => None,
    }
}

/// Reads a hunk's header.
pub fn read_header(line: &Vec<u8>) -> (header: Option<Header>)
    ensures
        header_view(header) == parse_header(line@),
{
    let opening: Vec<u8> = vec![AT_SIGN, AT_SIGN, SPACE, MINUS];
    let middle: Vec<u8> = vec![SPACE, PLUS];
    let closing: Vec<u8> = vec![SPACE, AT_SIGN, AT_SIGN];
    assert(opening@ =~= header_opening());
    assert(middle@ =~= header_middle());
    assert(closing@ =~= header_closing());
    if !has_word_at(line, 0, &opening) {
        return None;
    }
    let old = match read_range(line, 4) {
        None => {
            return None;
        },
        Some(old) => old,
    };
    if !has_word_at(line, old.next, &middle) {
        return None;
    }
    let new = match read_range(line, old.next + 2) {
        None => {
            return None;
        },
        Some(new) => new,
    };
    if !has_word_at(line, new.next, &closing) {
        return None;
    }
    if (old.count > 0 && old.start == 0) || (new.count > 0 && new.start == 0) {
        return None;
    }
    Some(
        Header {
            old_start: old.start,
            old_count: old.count,
            new_start: new.start,
            new_count: new.count,
        },
    )
}

} // verus!
