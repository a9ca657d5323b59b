use diffview::diff::{parse_diff, parse_hunk_header, parse_range, DiffLine};

#[test]
fn test_parse_hunk() {
    let sample = "diff --git a/src/main.rs b/src/main.rs\n\
index abc..def 100644\n\
--- a/src/main.rs\n\
+++ b/src/main.rs\n\
@@ -1,5 +1,6 @@\n \
fn main() {\n\
-    println!(\"hello\");\n\
+    println!(\"hello, world\");\n\
+    println!(\"second line\");\n \
}\n";
    let fd = parse_diff(sample);
    assert_eq!(fd.hunks.len(), 1);
    let hunk = &fd.hunks[0];
    assert_eq!(hunk.old_start, 1);
    assert_eq!(hunk.old_count, 5);
    assert_eq!(hunk.new_start, 1);
    assert_eq!(hunk.new_count, 6);
    assert_eq!(hunk.lines.len(), 5);
    assert!(matches!(hunk.lines[0], DiffLine::Context(_)));
    assert!(matches!(hunk.lines[1], DiffLine::Removed(_)));
    assert!(matches!(hunk.lines[2], DiffLine::Added(_)));
    assert!(matches!(hunk.lines[3], DiffLine::Added(_)));
    assert!(matches!(hunk.lines[4], DiffLine::Context(_)));
}

#[test]
fn test_binary_detection() {
    let fd = parse_diff("Binary files a/img.png and b/img.png differ\n");
    assert!(fd.is_binary);
    assert!(fd.hunks.is_empty());
}

#[test]
fn parse_records_the_new_file_path() {
    let fd = parse_diff("--- a/old.rs\n+++ b/new.rs\n@@ -1 +1 @@\n-x\n+y\n");
    assert_eq!(fd.path, "new.rs");
    assert!(!fd.is_binary);
}

#[test]
fn missing_count_defaults_to_one() {
    let fd = parse_diff("+++ b/f\n@@ -3 +7 @@\n-x\n+y\n");
    assert_eq!(fd.hunks.len(), 1);
    assert_eq!(fd.hunks[0].old_start, 3);
    assert_eq!(fd.hunks[0].old_count, 1);
    assert_eq!(fd.hunks[0].new_start, 7);
    assert_eq!(fd.hunks[0].new_count, 1);
}

#[test]
fn unparsable_start_defaults_to_one() {
    let (start, count) = parse_range("x,4");
    assert_eq!(start, 1);
    assert_eq!(count, 4);
    let (start2, count2) = parse_range("9,z");
    assert_eq!(start2, 9);
    assert_eq!(count2, 0);
}

#[test]
fn short_header_is_rejected() {
    assert!(parse_hunk_header("@@").is_none());
    assert!(parse_hunk_header("@@ -1,4").is_none());
}

#[test]
fn unknown_leading_characters_are_dropped() {
    let fd = parse_diff("+++ b/f\n@@ -1,2 +1,2 @@\n x\n\\ No newline at end of file\n+y\n");
    assert_eq!(fd.hunks.len(), 1);
    assert_eq!(fd.hunks[0].lines.len(), 2);
}

#[test]
fn lines_before_the_first_hunk_are_ignored() {
    let fd = parse_diff("junk\n+++ b/f\n@@ -1,1 +1,1 @@\n z\n");
    assert_eq!(fd.hunks.len(), 1);
    assert_eq!(fd.hunks[0].lines.len(), 1);
}

#[test]
fn several_hunks_are_split_at_headers() {
    let fd = parse_diff("+++ b/f\n@@ -1,1 +1,1 @@\n a\n@@ -5,1 +5,2 @@\n b\n+c\n");
    assert_eq!(fd.hunks.len(), 2);
    assert_eq!(fd.hunks[0].lines.len(), 1);
    assert_eq!(fd.hunks[1].lines.len(), 2);
    assert_eq!(fd.hunks[1].old_start, 5);
}
