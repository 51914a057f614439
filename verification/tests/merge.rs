use codex_apply::conflict::render_conflict;
use codex_apply::entry::{Hunk, Operation};
use codex_apply::merge::{find_sole_match, lines_match_at, merge_hunks, place_hunk, Spot};
use codex_apply::reconcile::{reconcile, FileChange};
use codex_apply::text::split_lines;

fn lines(rows: &[&str]) -> Vec<Vec<u8>> {
    rows.iter().map(|row| row.as_bytes().to_vec()).collect()
}

fn hunk(anchor: usize, before: &[&str], after: &[&str]) -> Hunk {
    Hunk { anchor, before: lines(before), after: lines(after) }
}

fn merged(content: &str, hunks: &[Hunk]) -> (String, bool) {
    let result = merge_hunks(&content.as_bytes().to_vec(), &hunks.to_vec(), &b"incoming".to_vec());
    (String::from_utf8(result.text).unwrap(), result.conflicted)
}

#[test]
fn conflict_block_has_five_parts_in_order() {
    let block = render_conflict(&b"ours\n".to_vec(), &b"theirs\n".to_vec(), &b"task-1".to_vec());
    assert_eq!(block, b"<<<<<<< HEAD\nours\n=======\ntheirs\n>>>>>>> task-1\n".to_vec());
}

#[test]
fn conflict_block_terminates_a_side_that_lacks_its_newline() {
    let block = render_conflict(&b"ours".to_vec(), &b"theirs".to_vec(), &b"x".to_vec());
    assert_eq!(block, b"<<<<<<< HEAD\nours\n=======\ntheirs\n>>>>>>> x\n".to_vec());
}

#[test]
fn conflict_block_with_empty_sides_is_markers_only() {
    let block = render_conflict(&Vec::new(), &Vec::new(), &Vec::new());
    assert_eq!(block, b"<<<<<<< HEAD\n=======\n>>>>>>> \n".to_vec());
}

#[test]
fn lines_keep_their_terminators() {
    assert_eq!(split_lines(&b"a\n\nb".to_vec()), lines(&["a\n", "\n", "b"]));
    assert_eq!(split_lines(&b"a\n".to_vec()), lines(&["a\n"]));
    assert_eq!(split_lines(&Vec::new()), Vec::<Vec<u8>>::new());
    assert_eq!(split_lines(&b"\n".to_vec()), lines(&["\n"]));
}

#[test]
fn a_pattern_matches_only_where_every_line_agrees() {
    let file = lines(&["a\n", "b\n", "c\n"]);
    assert!(lines_match_at(&file, &lines(&["b\n", "c\n"]), 1));
    assert!(!lines_match_at(&file, &lines(&["b\n", "c\n"]), 0));
    assert!(!lines_match_at(&file, &lines(&["b\n", "c\n"]), 2));
    assert!(lines_match_at(&file, &lines(&[]), 3));
    assert!(!lines_match_at(&file, &lines(&[]), 4));
    assert!(!lines_match_at(&file, &lines(&["b"]), 1));
}

#[test]
fn a_sole_match_is_found_and_a_repeated_one_is_not() {
    let file = lines(&["a\n", "b\n", "a\n", "c\n"]);
    assert_eq!(find_sole_match(&file, &lines(&["b\n"]), 0), Some(1));
    assert_eq!(find_sole_match(&file, &lines(&["a\n"]), 0), None);
    assert_eq!(find_sole_match(&file, &lines(&["a\n"]), 1), Some(2));
    assert_eq!(find_sole_match(&file, &lines(&["z\n"]), 0), None);
    assert_eq!(find_sole_match(&file, &lines(&["c\n"]), 3), Some(3));
    assert_eq!(find_sole_match(&file, &lines(&["c\n"]), 4), None);
}

#[test]
fn a_hunk_is_placed_where_it_is_expected_first() {
    let file = lines(&["a\n", "b\n", "a\n", "b\n"]);
    let change = hunk(2, &["a\n"], &["A\n"]);
    assert_eq!(place_hunk(&file, &change, 0, 2), Spot::Replace { at: 2 });
    assert_eq!(place_hunk(&file, &change, 0, 0), Spot::Replace { at: 0 });
    assert_eq!(place_hunk(&file, &change, 0, 1), Spot::Conflict { at: 1, len: 1 });
    assert_eq!(place_hunk(&file, &change, 0, 9), Spot::Conflict { at: 4, len: 0 });
    assert_eq!(place_hunk(&file, &change, 1, 0), Spot::Replace { at: 2 });
    let done = hunk(1, &["x\n"], &["b\n"]);
    assert_eq!(place_hunk(&file, &done, 0, 1), Spot::Present { at: 1 });
}

#[test]
fn a_hunk_found_in_place_replaces_its_region() {
    let (text, conflicted) = merged("one\ntwo\nthree\n", &[hunk(1, &["two\n"], &["2\n", "2.5\n"])]);
    assert_eq!(text, "one\n2\n2.5\nthree\n");
    assert!(!conflicted);
}

#[test]
fn a_hunk_is_moved_to_the_one_place_where_its_region_stands() {
    let change = hunk(0, &["one\n", "two\n"], &["one\n", "TWO\n"]);
    let (text, conflicted) = merged("intro\none\ntwo\nthree\n", &[change]);
    assert_eq!(text, "intro\none\nTWO\nthree\n");
    assert!(!conflicted);
}

#[test]
fn a_hunk_whose_region_stands_twice_elsewhere_is_a_conflict() {
    let change = hunk(7, &["a\n", "b\n"], &["c\n"]);
    let (text, conflicted) = merged("a\nb\na\nb\n", &[change]);
    assert_eq!(text, "a\nb\na\nb\n<<<<<<< HEAD\n=======\nc\n>>>>>>> incoming\n");
    assert!(conflicted);
}

#[test]
fn a_hunk_that_is_already_in_place_changes_nothing() {
    let change = hunk(1, &["two\n"], &["2\n"]);
    let (text, conflicted) = merged("one\n2\nthree\n", &[change]);
    assert_eq!(text, "one\n2\nthree\n");
    assert!(!conflicted);
}

#[test]
fn a_hunk_that_finds_other_lines_leaves_a_block_in_its_place() {
    let change = hunk(1, &["two\n"], &["2\n"]);
    let (text, conflicted) = merged("one\nTWO\nthree\n", &[change]);
    assert_eq!(text, "one\n<<<<<<< HEAD\nTWO\n=======\n2\n>>>>>>> incoming\nthree\n");
    assert!(conflicted);
}

#[test]
fn hunks_around_a_conflict_are_still_applied() {
    let hunks = [
        hunk(0, &["a\n"], &["A\n"]),
        hunk(2, &["c\n"], &["C\n"]),
        hunk(4, &["e\n"], &["E\n", "F\n"]),
    ];
    let (text, conflicted) = merged("a\nb\nx\nd\ne\n", &hunks);
    assert_eq!(text, "A\nb\n<<<<<<< HEAD\nx\n=======\nC\n>>>>>>> incoming\nd\nE\nF\n");
    assert!(conflicted);
}

#[test]
fn later_hunks_follow_the_lines_that_earlier_ones_found() {
    let hunks = [hunk(0, &["a\n"], &["A\n"]), hunk(2, &["c\n"], &["C\n"])];
    let (text, conflicted) = merged("new\nnew\na\nb\nc\nd\n", &hunks);
    assert_eq!(text, "new\nnew\nA\nb\nC\nd\n");
    assert!(!conflicted);
}

#[test]
fn a_last_line_without_terminator_is_kept_as_it_is() {
    let (text, conflicted) = merged("one\ntwo", &[hunk(0, &["one\n"], &["1\n"])]);
    assert_eq!(text, "1\ntwo");
    assert!(!conflicted);
    let (text, conflicted) = merged("one\ntwo", &[hunk(1, &["two\n"], &["2\n"])]);
    assert_eq!(text, "one\n<<<<<<< HEAD\ntwo\n=======\n2\n>>>>>>> incoming\n");
    assert!(conflicted);
}

#[test]
fn no_hunks_leave_the_file_as_it_is() {
    let (text, conflicted) = merged("one\ntwo", &[]);
    assert_eq!(text, "one\ntwo");
    assert!(!conflicted);
}

#[test]
fn creating_a_file_writes_keeps_or_conflicts() {
    let label = b"incoming".to_vec();
    let create = Operation::Create { content: b"new\n".to_vec() };
    let made = reconcile(&create, None, &label);
    assert_eq!(made.change, FileChange::Write { content: b"new\n".to_vec() });
    assert!(!made.conflicted);
    let same = reconcile(&create, Some(&b"new\n".to_vec()), &label);
    assert_eq!(same.change, FileChange::Keep);
    assert!(!same.conflicted);
    let other = reconcile(&create, Some(&b"old\n".to_vec()), &label);
    assert_eq!(
        other.change,
        FileChange::Write {
            content: b"<<<<<<< HEAD\nold\n=======\nnew\n>>>>>>> incoming\n".to_vec()
        }
    );
    assert!(other.conflicted);
}

#[test]
fn removing_a_file_removes_keeps_or_conflicts() {
    let label = b"incoming".to_vec();
    let delete = Operation::Delete { expected: b"old\n".to_vec() };
    let gone = reconcile(&delete, Some(&b"old\n".to_vec()), &label);
    assert_eq!(gone.change, FileChange::Remove);
    assert!(!gone.conflicted);
    let missing = reconcile(&delete, None, &label);
    assert_eq!(missing.change, FileChange::Keep);
    assert!(!missing.conflicted);
    let edited = reconcile(&delete, Some(&b"edited\n".to_vec()), &label);
    assert_eq!(
        edited.change,
        FileChange::Write { content: b"<<<<<<< HEAD\nedited\n=======\n>>>>>>> incoming\n".to_vec() }
    );
    assert!(edited.conflicted);
}

#[test]
fn modifying_a_file_writes_keeps_or_conflicts() {
    let label = b"incoming".to_vec();
    let modify = Operation::Modify { hunks: vec![hunk(0, &["a\n"], &["b\n"])] };
    let changed = reconcile(&modify, Some(&b"a\nz\n".to_vec()), &label);
    assert_eq!(changed.change, FileChange::Write { content: b"b\nz\n".to_vec() });
    assert!(!changed.conflicted);
    let again = reconcile(&modify, Some(&b"b\nz\n".to_vec()), &label);
    assert_eq!(again.change, FileChange::Keep);
    assert!(!again.conflicted);
    let missing = reconcile(&modify, None, &label);
    assert_eq!(
        missing.change,
        FileChange::Write { content: b"<<<<<<< HEAD\n=======\nb\n>>>>>>> incoming\n".to_vec() }
    );
    assert!(missing.conflicted);
}
