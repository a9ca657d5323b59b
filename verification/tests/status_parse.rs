use diffview::status::{parse_commit_name_status, parse_status, GitFile};

#[test]
fn test_parse_porcelain() {
    let input = " M src/main.rs\nMM src/app.rs\n?? tmp/new.txt\nA  added.rs\n";
    let files = parse_status(input);
    assert_eq!(files.len(), 4);
    assert_eq!(files[0].path, "src/main.rs");
    assert_eq!(files[0].staged, ' ');
    assert_eq!(files[0].unstaged, 'M');
    assert_eq!(files[1].staged, 'M');
    assert_eq!(files[1].unstaged, 'M');
    assert!(files[2].is_untracked());
    assert_eq!(files[3].staged, 'A');
}

#[test]
fn test_renamed_file() {
    let input = "R  old.rs -> new.rs\n";
    let files = parse_status(input);
    assert_eq!(files[0].path, "new.rs");
}

#[test]
fn test_parse_commit_name_status_basic() {
    let input = "M\tsrc/main.rs\nA\tsrc/new.rs\nD\tsrc/old.rs\n";
    let files = parse_commit_name_status(input);
    assert_eq!(files.len(), 3);
    assert_eq!(files[0].path, "src/main.rs");
    assert_eq!(files[0].unstaged, 'M');
    assert_eq!(files[1].unstaged, 'A');
    assert_eq!(files[2].unstaged, 'D');
}

#[test]
fn test_parse_commit_name_status_rename() {
    let input = "R100\tsrc/old.rs\tsrc/new.rs\n";
    let files = parse_commit_name_status(input);
    assert_eq!(files.len(), 1);
    assert_eq!(files[0].path, "src/new.rs");
    assert_eq!(files[0].unstaged, 'R');
}

#[test]
fn quoted_paths_lose_their_quotes() {
    let files = parse_status(" M \"a b.rs\"\n");
    assert_eq!(files.len(), 1);
    assert_eq!(files[0].path, "a b.rs");
}

#[test]
fn short_and_blank_lines_are_dropped() {
    let files = parse_status("M\n\n M ok.rs\n");
    assert_eq!(files.len(), 1);
    assert_eq!(files[0].path, "ok.rs");
}

#[test]
fn unmerged_and_status_helpers() {
    let both_u = GitFile { path: "c.rs".to_string(), staged: 'U', unstaged: 'U' };
    assert!(both_u.is_unmerged());
    let one_u = GitFile { path: "c2.rs".to_string(), staged: ' ', unstaged: 'U' };
    assert!(one_u.is_unmerged());
    let both_a = GitFile { path: "d.rs".to_string(), staged: 'A', unstaged: 'A' };
    assert!(!both_a.is_unmerged());
    let plain = GitFile { path: "e.rs".to_string(), staged: ' ', unstaged: 'M' };
    assert!(!plain.is_unmerged());
    assert_eq!(plain.short_status(), 'M');
    assert_eq!(plain.display_status(), " M");
    let staged = GitFile { path: "f.rs".to_string(), staged: 'M', unstaged: ' ' };
    assert_eq!(staged.short_status(), 'M');
    let untracked = GitFile { path: "g.rs".to_string(), staged: '?', unstaged: '?' };
    assert!(untracked.is_untracked());
    assert_eq!(untracked.short_status(), '?');
}

#[test]
fn commit_listing_drops_blank_and_short_lines() {
    let files = parse_commit_name_status("\n   \nM\n\nA\tkeep.rs\n");
    assert_eq!(files.len(), 1);
    assert_eq!(files[0].path, "keep.rs");
}
