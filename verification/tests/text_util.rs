use diffview::config::Config;
use diffview::text::{dec_of_usize, parse_u32_or, split_char, split_lines, str_contains};

#[test]
fn decimal_rendering_is_exact() {
    assert_eq!(dec_of_usize(0), "0");
    assert_eq!(dec_of_usize(7), "7");
    assert_eq!(dec_of_usize(120), "120");
    assert_eq!(dec_of_usize(98765), "98765");
}

#[test]
fn number_parsing_accepts_digits_and_falls_back() {
    assert_eq!(parse_u32_or("42", 1), 42);
    assert_eq!(parse_u32_or("0", 1), 0);
    assert_eq!(parse_u32_or("+5", 1), 5);
    assert_eq!(parse_u32_or("", 1), 1);
    assert_eq!(parse_u32_or("x1", 9), 9);
    assert_eq!(parse_u32_or("99999999999999999999", 3), 3);
}

#[test]
fn line_splitting_matches_the_usual_rules() {
    let lines = split_lines("a\nb\r\nc");
    assert_eq!(lines, vec!["a", "b", "c"]);
    let trailing = split_lines("a\n");
    assert_eq!(trailing, vec!["a"]);
    let bare_final_cr = split_lines("a\nb\r");
    assert_eq!(bare_final_cr, vec!["a", "b\r"]);
    let empty: Vec<String> = split_lines("");
    assert!(empty.is_empty());
}

#[test]
fn field_splitting_keeps_empty_fields() {
    assert_eq!(split_char("a\tb", '\t'), vec!["a", "b"]);
    assert_eq!(split_char("a\t", '\t'), vec!["a", ""]);
    assert_eq!(split_char("", '\t'), vec![""]);
}

#[test]
fn substring_search_finds_the_marker() {
    assert!(str_contains("xx Binary files differ", "Binary files"));
    assert!(!str_contains("nothing here", "Binary files"));
    assert!(str_contains("abc", ""));
}

#[test]
fn configuration_defaults_are_the_documented_keys() {
    let c = Config::default();
    assert_eq!(c.diff.tool, "raw");
    assert_eq!(c.keybindings.add, "a");
    assert_eq!(c.keybindings.revert, "r");
    assert_eq!(c.keybindings.add_all, "A");
    assert_eq!(c.keybindings.revert_all, "R");
    assert_eq!(c.keybindings.select_mode, "v");
    assert_eq!(c.keybindings.toggle_fold, " ");
    assert_eq!(c.keybindings.next_hunk, "n");
    assert_eq!(c.keybindings.prev_hunk, "p");
}
