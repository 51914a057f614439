use codex_apply::error::ApplyError;
use codex_apply::task::{apply_diff_from_task, TaskDescriptor};
use codex_apply::tree::WorkingTree;

const FIBONACCI_JS: &str = r#"#!/usr/bin/env node

"use strict";

function fibonacci(n) {
  if (n === 0) {
    return 0;
  }
  if (n === 1) {
    return 1;
  }
  let previous = 0;
  let current = 1;
  for (let i = 2; i <= n; i++) {
    const next = previous + current;
    previous = current;
    current = next;
  }
  return current;
}

if (require.main === module) {
  const n = parseInt(process.argv[2], 10);
  if (Number.isNaN(n)) {
    console.error("Usage: fibonacci.js <n>");
    process.exit(1);
  }
  console.log(fibonacci(n));
}

module.exports = fibonacci;
"#;

/// A repository with one committed file, as a fresh checkout has it.
fn create_temp_repo() -> WorkingTree {
    let mut tree = WorkingTree::new(true);
    tree.write(&b"README.md".to_vec(), b"# Test Repo\n".to_vec())
        .expect("writing README.md failed");
    tree
}

/// The task of the fixture: a patch that creates `scripts/fibonacci.js`.
fn load_fixture_task() -> TaskDescriptor {
    let mut diff = String::new();
    diff.push_str("diff --git a/scripts/fibonacci.js b/scripts/fibonacci.js\n");
    diff.push_str("new file mode 100755\n");
    diff.push_str("index 0000000..e2a5c4f\n");
    diff.push_str("--- /dev/null\n");
    diff.push_str("+++ b/scripts/fibonacci.js\n");
    diff.push_str(&format!("@@ -0,0 +1,{} @@\n", FIBONACCI_JS.lines().count()));
    for line in FIBONACCI_JS.lines() {
        diff.push('+');
        diff.push_str(line);
        diff.push('\n');
    }
    TaskDescriptor { label: b"theirs".to_vec(), diff: diff.into_bytes() }
}

fn read_text(tree: &WorkingTree, path: &str) -> Option<String> {
    tree.read(&path.as_bytes().to_vec())
        .map(|bytes| String::from_utf8(bytes.clone()).expect("file is not UTF-8"))
}

#[test]
fn test_apply_command_creates_fibonacci_file() {
    let mut repo = create_temp_repo();
    let task = load_fixture_task();

    apply_diff_from_task(&task, &mut repo).expect("applying the diff of the task failed");

    // Assert that fibonacci.js was created in scripts/ directory
    let contents = read_text(&repo, "scripts/fibonacci.js");
    assert!(contents.is_some(), "fibonacci.js was not created");
    assert!(repo.has_directory(&b"scripts".to_vec()));

    // Verify the file contents match expected
    let contents = contents.unwrap();
    assert!(contents.contains("function fibonacci(n)"));
    assert!(contents.contains("#!/usr/bin/env node"));
    assert!(contents.contains("module.exports = fibonacci;"));

    // Verify file has correct number of lines (31 as specified in fixture)
    let line_count = contents.lines().count();
    assert_eq!(line_count, 31);
    assert_eq!(contents, FIBONACCI_JS);
    assert_eq!(read_text(&repo, "README.md").unwrap(), "# Test Repo\n");
}

#[test]
fn test_apply_command_with_merge_conflicts() {
    let mut repo = create_temp_repo();

    // Create conflicting fibonacci.js file first
    let conflicting_content = r#"#!/usr/bin/env node

// This is a different fibonacci implementation
function fib(num) {
  if (num <= 1) return num;
  return fib(num - 1) + fib(num - 2);
}

console.log("Running fibonacci...");
console.log(fib(10));
"#;
    repo.write(&b"scripts/fibonacci.js".to_vec(), conflicting_content.as_bytes().to_vec())
        .expect("writing the conflicting file failed");

    let task = load_fixture_task();
    let apply_result = apply_diff_from_task(&task, &mut repo);

    assert!(apply_result.is_err(), "expected the apply to fail with a merge conflict");

    let contents = read_text(&repo, "scripts/fibonacci.js").expect("Failed to read fibonacci.js");

    assert!(
        contents.contains("<<<<<<< HEAD")
            || contents.contains("=======")
            || contents.contains(">>>>>>> "),
        "fibonacci.js should hold conflict markers, but holds: {contents}",
    );
}

#[test]
fn merge_conflict_names_the_path_and_marks_the_file_whole() {
    let mut repo = create_temp_repo();
    let ours = "console.log(1);\n";
    repo.write(&b"scripts/fibonacci.js".to_vec(), ours.as_bytes().to_vec()).unwrap();

    let task = load_fixture_task();
    let error = apply_diff_from_task(&task, &mut repo).unwrap_err();

    assert!(error.is_merge_conflict());
    match error {
        ApplyError::MergeConflict { paths } => {
            assert_eq!(paths, vec![b"scripts/fibonacci.js".to_vec()]);
        }
        _ => panic!("expected a merge conflict"),
    }
    let expected = format!("<<<<<<< HEAD\n{ours}=======\n{FIBONACCI_JS}>>>>>>> theirs\n");
    assert_eq!(read_text(&repo, "scripts/fibonacci.js").unwrap(), expected);
}

#[test]
fn reapplying_a_successful_task_changes_nothing() {
    let mut repo = create_temp_repo();
    let task = load_fixture_task();

    let first = apply_diff_from_task(&task, &mut repo).expect("first apply failed");
    let after_first = read_text(&repo, "scripts/fibonacci.js").unwrap();
    let second = apply_diff_from_task(&task, &mut repo).expect("second apply failed");

    assert_eq!(read_text(&repo, "scripts/fibonacci.js").unwrap(), after_first);
    assert_eq!(repo.file_count(), 2);
    assert_eq!(first.applied, second.applied);
    assert!(second.conflicted.is_empty());
}

#[test]
fn two_applies_of_one_task_give_the_same_files_and_conflicts() {
    let task = load_fixture_task();
    let mut results = Vec::new();
    for _ in 0..2 {
        let mut repo = create_temp_repo();
        repo.write(&b"scripts/fibonacci.js".to_vec(), b"different\n".to_vec()).unwrap();
        let paths = match apply_diff_from_task(&task, &mut repo) {
            Err(ApplyError::MergeConflict { paths }) => paths,
            _ => panic!("expected a merge conflict"),
        };
        results.push((read_text(&repo, "scripts/fibonacci.js").unwrap(), paths));
    }
    assert_eq!(results[0], results[1]);
}

#[test]
fn a_tree_outside_version_control_is_refused_untouched() {
    let mut tree = WorkingTree::new(false);
    tree.write(&b"notes.txt".to_vec(), b"hello\n".to_vec()).unwrap();

    let result = apply_diff_from_task(&load_fixture_task(), &mut tree);

    assert!(matches!(result, Err(ApplyError::NotAVersionedTree)));
    assert_eq!(tree.file_count(), 1);
    assert_eq!(read_text(&tree, "notes.txt").unwrap(), "hello\n");
    assert!(read_text(&tree, "scripts/fibonacci.js").is_none());
}

#[test]
fn a_malformed_patch_is_refused_before_anything_is_touched() {
    let mut repo = create_temp_repo();
    let mut diff = String::new();
    diff.push_str("--- /dev/null\n+++ b/first.txt\n@@ -0,0 +1 @@\n+one\n");
    diff.push_str("--- /dev/null\n+++ b/second.txt\n@@ -0,0 +1,2 @@\n+only one line\n");
    let task = TaskDescriptor { label: b"theirs".to_vec(), diff: diff.into_bytes() };

    let result = apply_diff_from_task(&task, &mut repo);

    assert!(matches!(result, Err(ApplyError::MalformedDiff)));
    assert_eq!(repo.file_count(), 1);
    assert!(read_text(&repo, "first.txt").is_none());
}

#[test]
fn clean_files_stay_applied_when_another_conflicts() {
    let mut repo = create_temp_repo();
    repo.write(&b"src/b.txt".to_vec(), b"local b\n".to_vec()).unwrap();
    repo.write(&b"src/c.txt".to_vec(), b"one\ntwo\nthree\n".to_vec()).unwrap();
    repo.write(&b"old.txt".to_vec(), b"bye\n".to_vec()).unwrap();
    let mut diff = String::new();
    diff.push_str("--- /dev/null\n+++ b/src/a.txt\n@@ -0,0 +1,2 @@\n+alpha\n+beta\n");
    diff.push_str("--- /dev/null\n+++ b/src/b.txt\n@@ -0,0 +1 @@\n+incoming b\n");
    diff.push_str("--- a/src/c.txt\n+++ b/src/c.txt\n@@ -1,3 +1,3 @@\n one\n-two\n+2\n three\n");
    diff.push_str("--- a/old.txt\n+++ /dev/null\n@@ -1 +0,0 @@\n-bye\n");
    let task = TaskDescriptor { label: b"task-7".to_vec(), diff: diff.into_bytes() };

    let result = apply_diff_from_task(&task, &mut repo);

    match result {
        Err(ApplyError::MergeConflict { paths }) => assert_eq!(paths, vec![b"src/b.txt".to_vec()]),
        _ => panic!("expected a merge conflict"),
    }
    assert_eq!(read_text(&repo, "src/a.txt").unwrap(), "alpha\nbeta\n");
    assert_eq!(
        read_text(&repo, "src/b.txt").unwrap(),
        "<<<<<<< HEAD\nlocal b\n=======\nincoming b\n>>>>>>> task-7\n"
    );
    assert_eq!(read_text(&repo, "src/c.txt").unwrap(), "one\n2\nthree\n");
    assert!(read_text(&repo, "old.txt").is_none());
    assert_eq!(read_text(&repo, "README.md").unwrap(), "# Test Repo\n");
}

#[test]
fn a_successful_apply_lists_each_path_once_in_order() {
    let mut repo = create_temp_repo();
    let mut diff = String::new();
    diff.push_str("--- /dev/null\n+++ b/b.txt\n@@ -0,0 +1 @@\n+b\n");
    diff.push_str("--- /dev/null\n+++ b/a.txt\n@@ -0,0 +1 @@\n+a\n");
    diff.push_str("--- a/b.txt\n+++ b/b.txt\n@@ -1 +1 @@\n-b\n+B\n");
    let task = TaskDescriptor { label: b"theirs".to_vec(), diff: diff.into_bytes() };

    let outcome = apply_diff_from_task(&task, &mut repo).expect("apply failed");

    assert_eq!(outcome.applied, vec![b"b.txt".to_vec(), b"a.txt".to_vec()]);
    assert!(outcome.conflicted.is_empty());
    assert_eq!(read_text(&repo, "b.txt").unwrap(), "B\n");
    assert_eq!(read_text(&repo, "a.txt").unwrap(), "a\n");
}

#[test]
fn an_entry_under_a_removed_path_is_a_conflict() {
    let mut repo = create_temp_repo();
    repo.write(&b"build".to_vec(), b"artifact\n".to_vec()).unwrap();
    let mut diff = String::new();
    diff.push_str("--- a/build\n+++ /dev/null\n@@ -1 +0,0 @@\n-artifact\n");
    diff.push_str("--- /dev/null\n+++ b/build/out.txt\n@@ -0,0 +1 @@\n+made\n");
    let task = TaskDescriptor { label: b"theirs".to_vec(), diff: diff.into_bytes() };

    let result = apply_diff_from_task(&task, &mut repo);

    match result {
        Err(ApplyError::MergeConflict { paths }) => {
            assert_eq!(paths, vec![b"build/out.txt".to_vec()])
        }
        _ => panic!("expected a merge conflict"),
    }
    assert!(read_text(&repo, "build").is_none());
    assert!(read_text(&repo, "build/out.txt").is_none());
}

#[test]
fn a_file_in_the_way_of_a_directory_stops_the_apply() {
    let mut repo = create_temp_repo();
    repo.write(&b"docs".to_vec(), b"a file, not a directory\n".to_vec()).unwrap();
    let mut diff = String::new();
    diff.push_str("--- /dev/null\n+++ b/first.txt\n@@ -0,0 +1 @@\n+first\n");
    diff.push_str("--- /dev/null\n+++ b/docs/guide.md\n@@ -0,0 +1 @@\n+guide\n");
    diff.push_str("--- /dev/null\n+++ b/last.txt\n@@ -0,0 +1 @@\n+last\n");
    let task = TaskDescriptor { label: b"theirs".to_vec(), diff: diff.into_bytes() };

    let result = apply_diff_from_task(&task, &mut repo);

    assert!(matches!(result, Err(ApplyError::IoFailure)));
    assert_eq!(read_text(&repo, "first.txt").unwrap(), "first\n");
    assert!(read_text(&repo, "docs/guide.md").is_none());
    assert!(read_text(&repo, "last.txt").is_none());
    assert_eq!(read_text(&repo, "docs").unwrap(), "a file, not a directory\n");
}
