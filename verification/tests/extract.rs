use codex_apply::entry::{DiffEntry, Hunk, Operation};
use codex_apply::error::ApplyError;
use codex_apply::extract::extract_entries;
use codex_apply::header::{read_header, read_number, read_range};
use codex_apply::locate::locate_working_tree;
use codex_apply::path::{is_under, is_valid_path};

fn rows(lines: &[&str]) -> Vec<Vec<u8>> {
    lines.iter().map(|line| line.as_bytes().to_vec()).collect()
}

fn extract(patch: &str) -> Result<Vec<DiffEntry>, ApplyError> {
    extract_entries(&patch.as_bytes().to_vec())
}

fn is_malformed(patch: &str) -> bool {
    matches!(extract(patch), Err(ApplyError::MalformedDiff))
}

#[test]
fn an_empty_patch_has_no_entries() {
    assert_eq!(extract("").unwrap(), Vec::new());
    assert_eq!(extract("just a note\nand another\n").unwrap(), Vec::new());
}

#[test]
fn a_new_file_becomes_a_create_entry() {
    let patch = "diff --git a/docs/a.txt b/docs/a.txt\nnew file mode 100644\nindex 0000000..1111111\n--- /dev/null\n+++ b/docs/a.txt\n@@ -0,0 +1,2 @@\n+first\n+second\n";
    let entries = extract(patch).unwrap();
    assert_eq!(
        entries,
        vec![DiffEntry {
            path: b"docs/a.txt".to_vec(),
            operation: Operation::Create { content: b"first\nsecond\n".to_vec() },
        }]
    );
}

#[test]
fn a_removed_file_becomes_a_delete_entry() {
    let patch = "--- a/old.txt\t2024-01-01 00:00:00\n+++ /dev/null\t2024-01-02 00:00:00\n@@ -1,2 +0,0 @@\n-gone\n-too\n";
    let entries = extract(patch).unwrap();
    assert_eq!(
        entries,
        vec![DiffEntry {
            path: b"old.txt".to_vec(),
            operation: Operation::Delete { expected: b"gone\ntoo\n".to_vec() },
        }]
    );
}

#[test]
fn a_changed_file_becomes_a_modify_entry_with_its_hunks() {
    let patch = "--- a/src/lib.rs\n+++ b/src/lib.rs\n@@ -3,3 +3,4 @@ fn main() {\n keep\n-drop\n+add\n+more\n tail\n@@ -20 +21 @@\n-x\n+y\n";
    let entries = extract(patch).unwrap();
    assert_eq!(
        entries,
        vec![DiffEntry {
            path: b"src/lib.rs".to_vec(),
            operation: Operation::Modify {
                hunks: vec![
                    Hunk {
                        anchor: 2,
                        before: rows(&["keep\n", "drop\n", "tail\n"]),
                        after: rows(&["keep\n", "add\n", "more\n", "tail\n"]),
                    },
                    Hunk { anchor: 19, before: rows(&["x\n"]), after: rows(&["y\n"]) },
                ],
            },
        }]
    );
}

#[test]
fn an_insertion_is_anchored_after_the_line_it_names() {
    let patch = "--- a/f\n+++ b/f\n@@ -4,0 +5,1 @@\n+inserted\n";
    let entries = extract(patch).unwrap();
    assert_eq!(
        entries[0].operation,
        Operation::Modify {
            hunks: vec![Hunk { anchor: 4, before: rows(&[]), after: rows(&["inserted\n"]) }]
        }
    );
}

#[test]
fn entries_keep_the_order_of_the_patch() {
    let patch = "--- /dev/null\n+++ b/z.txt\n@@ -0,0 +1 @@\n+z\nnoise between\n--- /dev/null\n+++ b/a.txt\n@@ -0,0 +1 @@\n+a\n-- \n2.43.0\n";
    let entries = extract(patch).unwrap();
    let paths: Vec<Vec<u8>> = entries.into_iter().map(|entry| entry.path).collect();
    assert_eq!(paths, vec![b"z.txt".to_vec(), b"a.txt".to_vec()]);
}

#[test]
fn a_note_takes_the_terminator_off_the_line_before_it() {
    let patch = "--- a/f\n+++ b/f\n@@ -1,2 +1,2 @@\n same\n-old\n\\ No newline at end of file\n+new\n\\ No newline at end of file\n";
    let entries = extract(patch).unwrap();
    assert_eq!(
        entries[0].operation,
        Operation::Modify {
            hunks: vec![Hunk {
                anchor: 0,
                before: rows(&["same\n", "old"]),
                after: rows(&["same\n", "new"]),
            }]
        }
    );
}

#[test]
fn a_note_after_a_context_line_holds_for_both_sides() {
    let patch = "--- a/f\n+++ b/f\n@@ -1,2 +1,2 @@\n-a\n+b\n end\n\\ No newline at end of file\n";
    let entries = extract(patch).unwrap();
    assert_eq!(
        entries[0].operation,
        Operation::Modify {
            hunks: vec![Hunk { anchor: 0, before: rows(&["a\n", "end"]), after: rows(&["b\n", "end"]) }]
        }
    );
}

#[test]
fn a_section_without_hunks_changes_nothing() {
    let entries = extract("--- a/f\n+++ b/f\n").unwrap();
    assert_eq!(
        entries,
        vec![DiffEntry { path: b"f".to_vec(), operation: Operation::Modify { hunks: vec![] } }]
    );
}

#[test]
fn a_hunk_outside_a_section_is_malformed() {
    assert!(is_malformed("@@ -1 +1 @@\n-a\n+b\n"));
    assert!(is_malformed("--- a/f\nnot a second line\n@@ -1 +1 @@\n-a\n+b\n"));
}

#[test]
fn a_body_that_disagrees_with_its_header_is_malformed() {
    assert!(is_malformed("--- a/f\n+++ b/f\n@@ -1,2 +1,2 @@\n-a\n+b\n"));
    assert!(is_malformed("--- a/f\n+++ b/f\n@@ -1,1 +1,1 @@\n-a\n-b\n+c\n"));
    assert!(is_malformed("--- a/f\n+++ b/f\n@@ -1,1 +1,1 @@\n-a\n*b\n"));
    assert!(is_malformed("--- a/f\n+++ b/f\n@@ -1,1 +1,1 @@\n"));
}

#[test]
fn a_header_that_cannot_be_read_is_malformed() {
    assert!(is_malformed("--- a/f\n+++ b/f\n@@ -1 +1\n-a\n+b\n"));
    assert!(is_malformed("--- a/f\n+++ b/f\n@@ -x +1 @@\n-a\n+b\n"));
    assert!(is_malformed("--- a/f\n+++ b/f\n@@ -1, +1 @@\n-a\n+b\n"));
    assert!(is_malformed("--- a/f\n+++ b/f\n@@ -0,1 +1 @@\n-a\n+b\n"));
    assert!(is_malformed("--- a/f\n+++ b/f\n@@ -1234567890 +1 @@\n-a\n+b\n"));
    assert!(is_malformed("--- a/f\n+++ b/f\n@@ 1 +1 @@\n-a\n+b\n"));
}

#[test]
fn a_path_that_leaves_the_tree_is_malformed() {
    assert!(is_malformed("--- /dev/null\n+++ b/../escape\n@@ -0,0 +1 @@\n+x\n"));
    assert!(is_malformed("--- /dev/null\n+++ /etc/passwd\n@@ -0,0 +1 @@\n+x\n"));
    assert!(is_malformed("--- /dev/null\n+++ b/a//b\n@@ -0,0 +1 @@\n+x\n"));
    assert!(is_malformed("--- /dev/null\n+++ b/a/./b\n@@ -0,0 +1 @@\n+x\n"));
    assert!(is_malformed("--- /dev/null\n+++ b/\n@@ -0,0 +1 @@\n+x\n"));
    assert!(is_malformed("--- /dev/null\n+++ plain\n@@ -0,0 +1 @@\n+x\n"));
}

#[test]
fn sections_that_contradict_themselves_are_malformed() {
    assert!(is_malformed("--- /dev/null\n+++ /dev/null\n"));
    assert!(is_malformed("--- a/one\n+++ b/two\n@@ -1 +1 @@\n-a\n+b\n"));
    assert!(is_malformed("--- /dev/null\n+++ b/f\n@@ -1 +1 @@\n-a\n+b\n"));
    assert!(is_malformed("--- a/f\n+++ /dev/null\n@@ -1 +1 @@\n-a\n+b\n"));
}

#[test]
fn hunks_out_of_order_are_malformed() {
    assert!(is_malformed(
        "--- a/f\n+++ b/f\n@@ -5 +5 @@\n-a\n+b\n@@ -2 +2 @@\n-c\n+d\n"
    ));
    assert!(is_malformed(
        "--- a/f\n+++ b/f\n@@ -5,2 +5,2 @@\n-a\n-b\n+c\n+d\n@@ -6 +6 @@\n-e\n+f\n"
    ));
    assert!(!is_malformed(
        "--- a/f\n+++ b/f\n@@ -5,2 +5,2 @@\n-a\n-b\n+c\n+d\n@@ -7 +7 @@\n-e\n+f\n"
    ));
}

#[test]
fn numbers_have_one_to_nine_digits() {
    let line = b"12,345 x".to_vec();
    let number = read_number(&line, 0).unwrap();
    assert_eq!((number.value, number.next), (12, 2));
    let number = read_number(&line, 3).unwrap();
    assert_eq!((number.value, number.next), (345, 6));
    assert!(read_number(&line, 2).is_none());
    assert!(read_number(&line, 40).is_none());
    assert_eq!(read_number(&b"999999999".to_vec(), 0).unwrap().value, 999999999);
    assert!(read_number(&b"1000000000".to_vec(), 0).is_none());
    assert_eq!(read_number(&b"007".to_vec(), 0).unwrap().value, 7);
}

#[test]
fn a_range_without_count_has_one_line() {
    let range = read_range(&b"17 ".to_vec(), 0).unwrap();
    assert_eq!((range.start, range.count, range.next), (17, 1, 2));
    let range = read_range(&b"17,0 ".to_vec(), 0).unwrap();
    assert_eq!((range.start, range.count, range.next), (17, 0, 4));
    assert!(read_range(&b"17,".to_vec(), 0).is_none());
}

#[test]
fn a_header_gives_both_ranges() {
    let header = read_header(&b"@@ -3,7 +4,9 @@ fn name()\n".to_vec()).unwrap();
    assert_eq!(
        (header.old_start, header.old_count, header.new_start, header.new_count),
        (3, 7, 4, 9)
    );
    assert!(read_header(&b"@@ -3,7 +4,9@@\n".to_vec()).is_none());
}

#[test]
fn paths_are_relative_and_normalized() {
    assert!(is_valid_path(&b"a".to_vec()));
    assert!(is_valid_path(&b"scripts/fibonacci.js".to_vec()));
    assert!(is_valid_path(&b".hidden/..name/a.b".to_vec()));
    assert!(is_valid_path(&b"...".to_vec()));
    assert!(!is_valid_path(&b"".to_vec()));
    assert!(!is_valid_path(&b"/abs".to_vec()));
    assert!(!is_valid_path(&b"a/".to_vec()));
    assert!(!is_valid_path(&b"a//b".to_vec()));
    assert!(!is_valid_path(&b".".to_vec()));
    assert!(!is_valid_path(&b"..".to_vec()));
    assert!(!is_valid_path(&b"a/../b".to_vec()));
    assert!(!is_valid_path(&b"a/./b".to_vec()));
    assert!(!is_valid_path(&b"a/..".to_vec()));
}

#[test]
fn a_path_lies_under_the_directories_above_it() {
    assert!(is_under(&b"a/b/c".to_vec(), &b"a".to_vec()));
    assert!(is_under(&b"a/b/c".to_vec(), &b"a/b".to_vec()));
    assert!(!is_under(&b"a/b/c".to_vec(), &b"a/b/c".to_vec()));
    assert!(!is_under(&b"ab/c".to_vec(), &b"a".to_vec()));
    assert!(!is_under(&b"a".to_vec(), &b"a/b".to_vec()));
}

#[test]
fn the_nearest_directory_with_metadata_is_the_root() {
    assert!(matches!(locate_working_tree(&vec![true]), Ok(0)));
    assert!(matches!(locate_working_tree(&vec![false, false, true, true]), Ok(2)));
    assert!(matches!(
        locate_working_tree(&vec![false, false]),
        Err(ApplyError::NotAVersionedTree)
    ));
    assert!(matches!(locate_working_tree(&vec![]), Err(ApplyError::NotAVersionedTree)));
}
