use diffview::app::{App, DiffTool, Effect, Focus, KeyInput, TreePane};
use diffview::config::Config;
use diffview::status::parse_status;

fn new_app() -> App {
    App::new(Config::default(), DiffTool::Raw, 120)
}

fn unstaged_paths(app: &App) -> Vec<String> {
    app.unstaged.all_nodes.iter().map(|n| n.path.clone()).collect()
}

#[test]
fn worktree_pane_holds_changed_and_untracked_files() {
    let mut app = new_app();
    let files = parse_status(" M src/main.rs\n?? tmp/x.txt\nA  added.rs\n");
    app.refresh_trees(&files);
    let paths = unstaged_paths(&app);
    assert_eq!(paths, vec!["src", "src/main.rs", "tmp", "tmp/x.txt"]);
    assert!(!paths.contains(&"added.rs".to_string()));
    let staged: Vec<String> = app.staged.all_nodes.iter().map(|n| n.path.clone()).collect();
    assert_eq!(staged, vec!["added.rs"]);
}

#[test]
fn moving_past_the_last_worktree_row_enters_the_recorded_pane() {
    let mut app = new_app();
    let files = parse_status(" M a.rs\nM  b.rs\n");
    app.refresh_trees(&files);
    assert_eq!(app.focus, Focus::Unstaged);
    app.tree_move_down();
    assert_eq!(app.focus, Focus::Staged);
    assert_eq!(app.staged.cursor, 0);
    app.tree_move_up();
    assert_eq!(app.focus, Focus::Unstaged);
    assert_eq!(app.unstaged.cursor, 0);
}

#[test]
fn startup_focuses_the_recorded_pane_when_only_it_has_rows() {
    let mut app = new_app();
    let files = parse_status("M  b.rs\n");
    app.initialize(&files);
    assert_eq!(app.focus, Focus::Staged);
}

const SIMPLE_RAW: &str = "--- a/f\n+++ b/f\n@@ -1,2 +1,2 @@\n a\n-x\n+y\n";

#[test]
fn loading_a_diff_parses_and_addresses_its_lines() {
    let mut app = new_app();
    app.load_diff("f", TreePane::Unstaged, SIMPLE_RAW, SIMPLE_RAW);
    assert_eq!(app.file_diff.hunks.len(), 1);
    assert_eq!(app.line_infos.len(), 6);
    assert!(!app.line_infos[2].is_selectable);
    assert_eq!(app.line_infos[2].hunk_idx, Some(0));
    assert!(!app.line_infos[3].is_selectable);
    assert!(app.line_infos[4].is_selectable);
    assert!(app.line_infos[5].is_selectable);
    assert_eq!(app.line_infos[4].line_in_hunk, Some(1));
}

#[test]
fn diff_view_scrolls_within_the_text() {
    let mut app = new_app();
    app.load_diff("f", TreePane::Unstaged, SIMPLE_RAW, SIMPLE_RAW);
    app.focus = Focus::DiffView;
    app.handle_key(KeyInput::Down);
    assert_eq!(app.diff_scroll, 1);
    app.handle_key(KeyInput::Up);
    assert_eq!(app.diff_scroll, 0);
    app.handle_key(KeyInput::Bottom);
    assert_eq!(app.diff_scroll, 5);
    app.handle_key(KeyInput::Top);
    assert_eq!(app.diff_scroll, 0);
}

#[test]
fn entering_line_selection_needs_hunks() {
    let mut app = new_app();
    app.focus = Focus::DiffView;
    app.handle_key(KeyInput::SelectMode);
    assert_eq!(
        app.error_message.as_deref(),
        Some("No hunks to select lines from")
    );
    app.load_diff("f", TreePane::Unstaged, SIMPLE_RAW, SIMPLE_RAW);
    app.focus = Focus::DiffView;
    app.handle_key(KeyInput::SelectMode);
    assert_eq!(app.focus, Focus::InlineSelect);
}

#[test]
fn difftastic_refuses_line_selection() {
    let mut app = App::new(Config::default(), DiffTool::Difftastic, 120);
    app.load_diff("f", TreePane::Unstaged, SIMPLE_RAW, SIMPLE_RAW);
    app.focus = Focus::DiffView;
    app.handle_key(KeyInput::SelectMode);
    assert_eq!(
        app.error_message.as_deref(),
        Some("Line selection unavailable with difftastic")
    );
    assert_eq!(app.focus, Focus::DiffView);
}

#[test]
fn applying_a_context_line_is_a_reported_no_op() {
    let mut app = new_app();
    app.load_diff("f", TreePane::Unstaged, SIMPLE_RAW, SIMPLE_RAW);
    app.focus = Focus::InlineSelect;
    app.diff_cursor = 3;
    let eff = app.apply_current_line();
    assert!(matches!(eff, Effect::Idle));
    assert_eq!(
        app.error_message.as_deref(),
        Some("Only +/- lines can be applied")
    );
}

#[test]
fn applying_a_line_builds_the_forward_patch() {
    let mut app = new_app();
    app.load_diff("f", TreePane::Unstaged, SIMPLE_RAW, SIMPLE_RAW);
    app.focus = Focus::InlineSelect;
    app.diff_cursor = 4;
    match app.apply_current_line() {
        Effect::ApplyPatch(req) => {
            assert_eq!(req.patch, "--- a/f\n+++ b/f\n@@ -1,2 +1,1 @@\n a\n-x\n");
            assert_eq!(req.prev_cursor, 4);
        },
        _ => panic!("expected a patch application"),
    }
}

#[test]
fn applying_from_the_recorded_pane_builds_the_reverse_patch() {
    let mut app = new_app();
    app.load_diff("f", TreePane::Staged, SIMPLE_RAW, SIMPLE_RAW);
    app.focus = Focus::InlineSelect;
    app.diff_cursor = 5;
    match app.apply_current_line() {
        Effect::ApplyPatch(req) => {
            assert_eq!(req.patch, "--- a/f\n+++ b/f\n@@ -1,2 +1,1 @@\n a\n-y\n");
        },
        _ => panic!("expected a patch application"),
    }
}

#[test]
fn applying_the_last_selectable_line_exits_to_the_origin_pane() {
    let mut app = new_app();
    let files = parse_status(" M f\n");
    app.initialize(&files);
    let raw = "--- a/f\n+++ b/f\n@@ -1,2 +1,1 @@\n a\n-x\n";
    app.load_diff("f", TreePane::Unstaged, raw, raw);
    app.focus = Focus::InlineSelect;
    app.diff_cursor = 4;
    match app.apply_current_line() {
        Effect::ApplyPatch(req) => {
            let refreshed = parse_status("");
            app.line_applied(&refreshed);
            app.finish_line_apply("", "", req.prev_cursor);
            assert_eq!(app.focus, Focus::Unstaged);
            assert!(app.current_file.is_none());
            assert_eq!(app.status_message.as_deref(), Some("Staged 1 line"));
        },
        _ => panic!("expected a patch application"),
    }
}

#[test]
fn cursor_advances_to_the_next_selectable_line_after_an_apply() {
    let mut app = new_app();
    app.load_diff("f", TreePane::Unstaged, SIMPLE_RAW, SIMPLE_RAW);
    app.focus = Focus::InlineSelect;
    app.diff_cursor = 4;
    let refreshed = parse_status(" M f\n");
    app.line_applied(&refreshed);
    let left = "--- a/f\n+++ b/f\n@@ -1,1 +1,1 @@\n-q\n+y\n";
    app.finish_line_apply(left, left, 4);
    assert_eq!(app.focus, Focus::InlineSelect);
    assert_eq!(app.diff_cursor, 4);
    assert!(app.line_infos[app.diff_cursor].is_selectable);
}

#[test]
fn hunk_jumps_scroll_to_the_header_line() {
    let raw = "--- a/f\n+++ b/f\n@@ -1,1 +1,1 @@\n-a\n+b\n@@ -9,1 +9,1 @@\n-c\n+d\n";
    let mut app = new_app();
    app.load_diff("f", TreePane::Unstaged, raw, raw);
    app.focus = Focus::DiffView;
    app.handle_key(KeyInput::NextHunk);
    assert_eq!(app.hunk_cursor, 1);
    assert_eq!(app.diff_scroll, 5);
    app.handle_key(KeyInput::PrevHunk);
    assert_eq!(app.hunk_cursor, 0);
    assert_eq!(app.diff_scroll, 2);
}

#[test]
fn untracked_files_show_a_placeholder_instead_of_a_diff() {
    let mut app = new_app();
    let files = parse_status("?? new.txt\n");
    app.refresh_trees(&files);
    let req = app.tree_load_preview();
    assert!(req.is_none());
    assert_eq!(
        app.display_diff,
        "(untracked file – press Enter to stage it)"
    );
    assert_eq!(app.current_file.as_deref(), Some("new.txt"));
}

#[test]
fn opening_a_directory_expands_it_and_opening_a_file_fetches() {
    let mut app = new_app();
    let files = parse_status(" M src/a.rs\n");
    app.refresh_trees(&files);
    let r1 = app.tree_action_right();
    match r1 {
        Some(req) => assert_eq!(req.path, "src/a.rs"),
        None => panic!("expected the preview of the first child"),
    }
    assert_eq!(app.focus, Focus::Unstaged);
    assert_eq!(app.unstaged.cursor, 1);
    let r2 = app.tree_action_right();
    match r2 {
        Some(req) => {
            assert_eq!(req.path, "src/a.rs");
            assert_eq!(req.pane, TreePane::Unstaged);
        },
        None => panic!("expected a fetch request"),
    }
    assert_eq!(app.focus, Focus::DiffView);
}

#[test]
fn entering_a_directory_row_requests_the_whole_subtree() {
    let mut app = new_app();
    let files = parse_status(" M src/a.rs\n M src/b.rs\n");
    app.refresh_trees(&files);
    match app.tree_enter() {
        Some(req) => {
            assert!(req.is_dir);
            assert!(!req.unstage);
            assert_eq!(req.paths, vec!["src/a.rs", "src/b.rs"]);
            assert_eq!(req.label, "Staged directory: src");
        },
        None => panic!("expected a request"),
    }
}

#[test]
fn refresh_reports_and_moves_focus_off_an_empty_pane() {
    let mut app = new_app();
    let files = parse_status(" M a.rs\n");
    app.initialize(&files);
    assert_eq!(app.focus, Focus::Unstaged);
    let refreshed = parse_status("M  a.rs\n");
    app.refresh_latest_state(&refreshed);
    assert_eq!(app.focus, Focus::Staged);
    assert_eq!(app.status_message.as_deref(), Some("Refreshed latest state"));
}

#[test]
fn tool_names_are_matched_without_regard_to_case() {
    assert_eq!(DiffTool::from_str("delta"), DiffTool::Delta);
    assert_eq!(DiffTool::from_str("DELTA"), DiffTool::Delta);
    assert_eq!(DiffTool::from_str("Difftastic"), DiffTool::Difftastic);
    assert_eq!(DiffTool::from_str("anything"), DiffTool::Raw);
    assert_eq!(DiffTool::Raw.name(), "raw");
    assert!(DiffTool::Delta.supports_line_ops());
    assert!(!DiffTool::Difftastic.supports_line_ops());
}

#[test]
fn pane_helpers_round_trip() {
    assert_eq!(TreePane::Unstaged.label(), "Unstaged");
    assert_eq!(TreePane::Staged.label(), "Staged");
    assert_eq!(TreePane::Unstaged.to_focus(), Focus::Unstaged);
    assert_eq!(TreePane::Staged.to_focus(), Focus::Staged);
    assert!(TreePane::Staged.is_staged());
    assert!(!TreePane::Unstaged.is_staged());
}
