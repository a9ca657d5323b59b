use std::collections::HashSet;

use diffview::diff::{DiffLine, Hunk};
use diffview::patch::{build_hunk_patch, build_partial_patch, build_reverse_partial_patch};

fn make_hunk() -> Hunk {
    Hunk {
        header: "@@ -1,4 +1,4 @@".to_string(),
        old_start: 1,
        old_count: 4,
        new_start: 1,
        new_count: 4,
        lines: vec![
            DiffLine::Context("ctx_before".to_string()),
            DiffLine::Removed("old_line".to_string()),
            DiffLine::Added("new_line".to_string()),
            DiffLine::Context("ctx_after".to_string()),
        ],
    }
}

#[test]
fn test_full_hunk_patch() {
    let hunk = make_hunk();
    let patch = build_hunk_patch("src/foo.rs", &hunk);
    assert!(patch.contains("--- a/src/foo.rs"));
    assert!(patch.contains("+++ b/src/foo.rs"));
    assert!(patch.contains("@@ -1,4 +1,4 @@"));
    assert!(patch.contains("-old_line"));
    assert!(patch.contains("+new_line"));
}

#[test]
fn test_partial_patch_select_added_only() {
    let hunk = make_hunk();
    let selected: HashSet<usize> = [2].iter().cloned().collect();
    let patch = build_partial_patch("src/foo.rs", &hunk, &selected);
    assert!(patch.contains(" old_line"));
    assert!(patch.contains("+new_line"));
    assert!(patch.contains("@@ -1,3 +1,4 @@"));
}

#[test]
fn test_partial_patch_select_removed_only() {
    let hunk = make_hunk();
    let selected: HashSet<usize> = [1].iter().cloned().collect();
    let patch = build_partial_patch("src/foo.rs", &hunk, &selected);
    assert!(patch.contains("-old_line"));
    assert!(!patch.contains("+new_line"));
    assert!(patch.contains("@@ -1,3 +1,2 @@"));
}

#[test]
fn test_reverse_partial_patch_unstage_added() {
    let hunk = make_hunk();
    let selected: HashSet<usize> = [2].iter().cloned().collect();
    let patch = build_reverse_partial_patch("src/foo.rs", &hunk, &selected);
    assert!(patch.contains("-new_line"));
    assert!(!patch.contains("old_line"));
    assert!(patch.contains(" ctx_before"));
    assert!(patch.contains(" ctx_after"));
    assert!(patch.contains("@@ -1,3 +1,2 @@"));
}

#[test]
fn test_reverse_partial_patch_unstage_removed() {
    let hunk = make_hunk();
    let selected: HashSet<usize> = [1].iter().cloned().collect();
    let patch = build_reverse_partial_patch("src/foo.rs", &hunk, &selected);
    assert!(patch.contains("+old_line"));
    assert!(patch.contains(" new_line"));
    assert!(patch.contains("@@ -1,3 +1,4 @@"));
}

fn abcd_hunk() -> Hunk {
    Hunk {
        header: "@@ -1,4 +1,4 @@".to_string(),
        old_start: 1,
        old_count: 4,
        new_start: 1,
        new_count: 4,
        lines: vec![
            DiffLine::Context("a".to_string()),
            DiffLine::Removed("b".to_string()),
            DiffLine::Added("c".to_string()),
            DiffLine::Context("d".to_string()),
        ],
    }
}

#[test]
fn forward_patch_records_only_the_added_line() {
    let hunk = abcd_hunk();
    let selected: HashSet<usize> = [2].iter().cloned().collect();
    let patch = build_partial_patch("f", &hunk, &selected);
    assert_eq!(patch, "--- a/f\n+++ b/f\n@@ -1,3 +1,4 @@\n a\n b\n+c\n d\n");
}

#[test]
fn reverse_patch_unrecords_only_the_added_line() {
    let hunk = abcd_hunk();
    let selected: HashSet<usize> = [2].iter().cloned().collect();
    let patch = build_reverse_partial_patch("f", &hunk, &selected);
    assert_eq!(patch, "--- a/f\n+++ b/f\n@@ -1,3 +1,2 @@\n a\n-c\n d\n");
}

#[test]
fn full_hunk_patch_is_byte_exact() {
    let hunk = abcd_hunk();
    let patch = build_hunk_patch("dir/f.rs", &hunk);
    assert_eq!(
        patch,
        "--- a/dir/f.rs\n+++ b/dir/f.rs\n@@ -1,4 +1,4 @@\n a\n-b\n+c\n d\n"
    );
}

#[test]
fn empty_selection_gives_context_only_patch() {
    let hunk = abcd_hunk();
    let selected: HashSet<usize> = HashSet::new();
    let patch = build_partial_patch("f", &hunk, &selected);
    assert_eq!(patch, "--- a/f\n+++ b/f\n@@ -1,3 +1,3 @@\n a\n b\n d\n");
}

#[test]
fn full_selection_reduces_to_the_full_hunk() {
    let hunk = Hunk {
        header: "@@ -1,3 +1,3 @@".to_string(),
        old_start: 1,
        old_count: 3,
        new_start: 1,
        new_count: 3,
        lines: vec![
            DiffLine::Context("a".to_string()),
            DiffLine::Removed("b".to_string()),
            DiffLine::Added("c".to_string()),
            DiffLine::Context("d".to_string()),
        ],
    };
    let selected: HashSet<usize> = [0, 1, 2, 3].iter().cloned().collect();
    let partial = build_partial_patch("f", &hunk, &selected);
    let full = build_hunk_patch("f", &hunk);
    assert_eq!(partial, full);
}

#[test]
fn out_of_range_selection_indices_are_ignored() {
    let hunk = abcd_hunk();
    let selected: HashSet<usize> = [99].iter().cloned().collect();
    let with_stray = build_partial_patch("f", &hunk, &selected);
    let none: HashSet<usize> = HashSet::new();
    let empty = build_partial_patch("f", &hunk, &none);
    assert_eq!(with_stray, empty);
}

#[test]
fn header_counts_render_large_values() {
    let hunk = Hunk {
        header: "@@ -120,1 +340,1 @@".to_string(),
        old_start: 120,
        old_count: 1,
        new_start: 340,
        new_count: 1,
        lines: vec![DiffLine::Context("x".to_string())],
    };
    let patch = build_hunk_patch("f", &hunk);
    assert_eq!(patch, "--- a/f\n+++ b/f\n@@ -120,1 +340,1 @@\n x\n");
}
