use codex_apply::apply::apply_entries;
use codex_apply::entry::{DiffEntry, Hunk, Operation};
use codex_apply::error::ApplyError;
use codex_apply::progress::Progress;
use codex_apply::reconcile::{FileChange, Reconciled};
use codex_apply::tree::WorkingTree;

fn bytes(text: &str) -> Vec<u8> {
    text.as_bytes().to_vec()
}

fn create(path: &str, content: &str) -> DiffEntry {
    DiffEntry { path: bytes(path), operation: Operation::Create { content: bytes(content) } }
}

fn delete(path: &str, expected: &str) -> DiffEntry {
    DiffEntry { path: bytes(path), operation: Operation::Delete { expected: bytes(expected) } }
}

fn replace_line(path: &str, anchor: usize, before: &str, after: &str) -> DiffEntry {
    let hunk = Hunk { anchor, before: vec![bytes(before)], after: vec![bytes(after)] };
    DiffEntry { path: bytes(path), operation: Operation::Modify { hunks: vec![hunk] } }
}

fn sample_tree() -> WorkingTree {
    let mut tree = WorkingTree::new(true);
    tree.write(&bytes("src/main.rs"), bytes("fn main() {}\n")).unwrap();
    tree.write(&bytes("notes.txt"), bytes("one\ntwo\n")).unwrap();
    tree.write(&bytes("old.txt"), bytes("bye\n")).unwrap();
    tree
}

fn snapshot(tree: &WorkingTree, paths: &[&str]) -> Vec<Option<Vec<u8>>> {
    paths.iter().map(|path| tree.read(&bytes(path)).cloned()).collect()
}

#[test]
fn a_tree_holds_what_was_written_last() {
    let mut tree = WorkingTree::new(true);
    assert!(tree.is_versioned());
    assert_eq!(tree.file_count(), 0);
    assert_eq!(tree.read(&bytes("a")), None);
    tree.write(&bytes("a"), bytes("1")).unwrap();
    tree.write(&bytes("b"), bytes("2")).unwrap();
    tree.write(&bytes("a"), bytes("3")).unwrap();
    assert_eq!(tree.file_count(), 2);
    assert_eq!(tree.read(&bytes("a")), Some(&bytes("3")));
    assert_eq!(tree.read(&bytes("b")), Some(&bytes("2")));
    tree.remove(&bytes("a"));
    tree.remove(&bytes("missing"));
    assert_eq!(tree.file_count(), 1);
    assert_eq!(tree.read(&bytes("a")), None);
    assert!(!WorkingTree::new(false).is_versioned());
}

#[test]
fn a_file_cannot_be_a_directory_as_well() {
    let mut tree = WorkingTree::new(true);
    tree.write(&bytes("a/b"), bytes("x")).unwrap();
    assert!(tree.has_directory(&bytes("a")));
    assert!(!tree.has_directory(&bytes("a/b")));
    assert!(!tree.has_directory(&bytes("b")));
    assert!(tree.is_obstructed(&bytes("a")));
    assert!(tree.is_obstructed(&bytes("a/b/c")));
    assert!(!tree.is_obstructed(&bytes("a/b")));
    assert!(!tree.is_obstructed(&bytes("a/c")));
    assert!(!tree.is_obstructed(&bytes("ab")));
    assert_eq!(tree.write(&bytes("a"), bytes("y")), Err(ApplyError::IoFailure));
    assert_eq!(tree.write(&bytes("a/b/c"), bytes("y")), Err(ApplyError::IoFailure));
    assert_eq!(tree.file_count(), 1);
    assert_eq!(tree.read(&bytes("a/b")), Some(&bytes("x")));
}

#[test]
fn changes_are_carried_out_whole() {
    let mut tree = sample_tree();
    tree.perform(&bytes("notes.txt"), &FileChange::Keep).unwrap();
    assert_eq!(tree.read(&bytes("notes.txt")), Some(&bytes("one\ntwo\n")));
    tree.perform(&bytes("notes.txt"), &FileChange::Write { content: bytes("new\n") }).unwrap();
    assert_eq!(tree.read(&bytes("notes.txt")), Some(&bytes("new\n")));
    tree.perform(&bytes("notes.txt"), &FileChange::Remove).unwrap();
    assert_eq!(tree.read(&bytes("notes.txt")), None);
    let blocked = tree.perform(&bytes("old.txt/x"), &FileChange::Write { content: bytes("x") });
    assert_eq!(blocked, Err(ApplyError::IoFailure));
    assert_eq!(tree.perform(&bytes("old.txt/x"), &FileChange::Remove), Ok(()));
}

#[test]
fn interrupted_between_entries_every_file_is_whole() {
    let entries = vec![
        create("docs/new.md", "# New\n"),
        replace_line("notes.txt", 1, "two\n", "2\n"),
        create("src/main.rs", "fn main() { run() }\n"),
        delete("old.txt", "bye\n"),
    ];
    let paths = ["docs/new.md", "notes.txt", "src/main.rs", "old.txt"];
    let before = snapshot(&sample_tree(), &paths);
    let mut whole = sample_tree();
    let _ = apply_entries(&mut whole, &entries, &bytes("theirs"));
    let after = snapshot(&whole, &paths);
    assert_eq!(
        after,
        vec![
            Some(bytes("# New\n")),
            Some(bytes("one\n2\n")),
            Some(bytes(
                "<<<<<<< HEAD\nfn main() {}\n=======\nfn main() { run() }\n>>>>>>> theirs\n"
            )),
            None,
        ]
    );
    for done in 0..=entries.len() {
        let mut tree = sample_tree();
        let _ = apply_entries(&mut tree, &entries[..done].to_vec(), &bytes("theirs"));
        let now = snapshot(&tree, &paths);
        for (index, state) in now.iter().enumerate() {
            assert!(*state == before[index] || *state == after[index]);
            assert_eq!(*state == after[index] || before[index] == after[index], index < done);
        }
    }
}

#[test]
fn reapplying_modified_and_removed_files_changes_nothing() {
    let entries = vec![
        replace_line("notes.txt", 1, "two\n", "2\n"),
        delete("old.txt", "bye\n"),
        create("docs/new.md", "# New\n"),
    ];
    let mut tree = sample_tree();
    let first = apply_entries(&mut tree, &entries, &bytes("theirs")).unwrap();
    let paths = ["docs/new.md", "notes.txt", "src/main.rs", "old.txt"];
    let after_first = snapshot(&tree, &paths);
    let second = apply_entries(&mut tree, &entries, &bytes("theirs")).unwrap();
    assert_eq!(snapshot(&tree, &paths), after_first);
    assert_eq!(first, second);
    assert_eq!(first.applied, vec![bytes("notes.txt"), bytes("old.txt"), bytes("docs/new.md")]);
}

#[test]
fn a_hunk_that_finds_its_region_again_is_applied_again() {
    let hunk = Hunk { anchor: 0, before: vec![bytes("a\n")], after: vec![bytes("a\n"), bytes("a\n")] };
    let entries =
        vec![DiffEntry { path: bytes("f"), operation: Operation::Modify { hunks: vec![hunk] } }];
    let mut tree = WorkingTree::new(true);
    tree.write(&bytes("f"), bytes("a\n")).unwrap();
    apply_entries(&mut tree, &entries, &bytes("theirs")).unwrap();
    assert_eq!(tree.read(&bytes("f")), Some(&bytes("a\na\n")));
    apply_entries(&mut tree, &entries, &bytes("theirs")).unwrap();
    assert_eq!(tree.read(&bytes("f")), Some(&bytes("a\na\na\n")));
}

#[test]
fn entries_for_one_path_build_on_each_other() {
    let entries = vec![
        create("f.txt", "one\n"),
        replace_line("f.txt", 0, "one\n", "two\n"),
        delete("f.txt", "two\n"),
        create("f.txt", "three\n"),
    ];
    let mut tree = WorkingTree::new(true);
    let outcome = apply_entries(&mut tree, &entries, &bytes("theirs")).unwrap();
    assert_eq!(tree.read(&bytes("f.txt")), Some(&bytes("three\n")));
    assert_eq!(outcome.applied, vec![bytes("f.txt")]);
}

#[test]
fn progress_plans_records_and_finishes() {
    let label = bytes("theirs");
    let mut progress = Progress::new();
    let first = create("a.txt", "a\n");
    let planned = progress.plan(&first, None, &label);
    assert_eq!(
        planned,
        Reconciled { change: FileChange::Write { content: bytes("a\n") }, conflicted: false }
    );
    progress.record(&first.path, &planned);
    let second = delete("dir", "x\n");
    let planned = progress.plan(&second, Some(&bytes("x\n")), &label);
    assert_eq!(planned, Reconciled { change: FileChange::Remove, conflicted: false });
    progress.record(&second.path, &planned);
    let third = create("dir/b.txt", "b\n");
    let planned = progress.plan(&third, None, &label);
    assert_eq!(planned, Reconciled { change: FileChange::Keep, conflicted: true });
    progress.record(&third.path, &planned);
    let fourth = create("dirt.txt", "d\n");
    let planned = progress.plan(&fourth, None, &label);
    assert!(!planned.conflicted);
    progress.record(&fourth.path, &planned);
    progress.record(&third.path, &Reconciled { change: FileChange::Keep, conflicted: true });
    match progress.finish() {
        Err(ApplyError::MergeConflict { paths }) => assert_eq!(paths, vec![bytes("dir/b.txt")]),
        _ => panic!("expected a merge conflict"),
    }
}

#[test]
fn progress_without_conflicts_lists_the_applied_paths() {
    let mut progress = Progress::new();
    let clean = Reconciled { change: FileChange::Keep, conflicted: false };
    progress.record(&bytes("b"), &clean);
    progress.record(&bytes("a"), &clean);
    progress.record(&bytes("b"), &clean);
    let outcome = progress.finish().unwrap();
    assert_eq!(outcome.applied, vec![bytes("b"), bytes("a")]);
    assert!(outcome.conflicted.is_empty());
    assert!(Progress::new().finish().unwrap().applied.is_empty());
}
