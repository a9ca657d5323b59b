use diffview::tree::{build_section, rebuild_section_visible, TreeSection};

fn paths(section: &TreeSection) -> Vec<String> {
    section.all_nodes.iter().map(|n| n.path.clone()).collect()
}

fn visible_paths(section: &TreeSection) -> Vec<String> {
    section
        .visible
        .iter()
        .map(|&i| section.all_nodes[i].path.clone())
        .collect()
}

fn section_from(files: &[(&str, char, char)]) -> TreeSection {
    let recs: Vec<(String, char, char)> =
        files.iter().map(|&(p, a, b)| (p.to_string(), a, b)).collect();
    let mut section = TreeSection::new();
    build_section(&mut section.all_nodes, &recs);
    rebuild_section_visible(&mut section);
    section
}

#[test]
fn directories_sort_immediately_before_their_children() {
    let section = section_from(&[
        ("src/main.rs", ' ', 'M'),
        ("tmp/x.txt", '?', '?'),
        ("b.rs", ' ', 'M'),
    ]);
    assert_eq!(paths(&section), vec!["b.rs", "src", "src/main.rs", "tmp", "tmp/x.txt"]);
    let dirs: Vec<bool> = section.all_nodes.iter().map(|n| n.is_dir).collect();
    assert_eq!(dirs, vec![false, true, false, true, false]);
}

#[test]
fn node_names_and_depths_follow_the_path() {
    let section = section_from(&[("a/b/c.rs", ' ', 'M')]);
    let names: Vec<String> = section.all_nodes.iter().map(|n| n.name.clone()).collect();
    assert_eq!(names, vec!["a", "b", "c.rs"]);
    let depths: Vec<usize> = section.all_nodes.iter().map(|n| n.depth).collect();
    assert_eq!(depths, vec![0, 1, 2]);
}

#[test]
fn collapsing_a_directory_hides_exactly_its_subtree() {
    let mut section = section_from(&[
        ("src/a.rs", ' ', 'M'),
        ("src/deep/b.rs", ' ', 'M'),
        ("top.rs", ' ', 'M'),
    ]);
    assert_eq!(
        visible_paths(&section),
        vec!["src", "src/a.rs", "src/deep", "src/deep/b.rs", "top.rs"]
    );
    let before = visible_paths(&section);
    section.cursor = 0;
    section.set_expanded(false);
    assert_eq!(visible_paths(&section), vec!["src", "top.rs"]);
    section.cursor = 0;
    section.set_expanded(true);
    assert_eq!(visible_paths(&section), before);
}

#[test]
fn cursor_stays_clamped_after_every_mutation() {
    let mut section = section_from(&[
        ("src/a.rs", ' ', 'M'),
        ("src/b.rs", ' ', 'M'),
        ("src/c.rs", ' ', 'M'),
    ]);
    section.cursor = 3;
    section.set_expanded(false);
    assert!(section.cursor < section.visible.len());
    let recs: Vec<(String, char, char)> = Vec::new();
    build_section(&mut section.all_nodes, &recs);
    rebuild_section_visible(&mut section);
    assert!(section.visible.is_empty());
    assert_eq!(section.cursor, 0);
}

#[test]
fn expand_and_enter_moves_onto_the_first_child() {
    let mut section = section_from(&[("src/a.rs", ' ', 'M')]);
    section.cursor = 0;
    section.set_expanded(false);
    assert_eq!(visible_paths(&section), vec!["src"]);
    section.expand_and_enter();
    assert_eq!(visible_paths(&section), vec!["src", "src/a.rs"]);
    assert_eq!(section.cursor, 1);
}

#[test]
fn fold_parent_collapses_and_selects_the_parent() {
    let mut section = section_from(&[("src/a.rs", ' ', 'M'), ("zzz.rs", ' ', 'M')]);
    section.cursor = 1;
    assert_eq!(section.all_nodes[section.visible[section.cursor]].path, "src/a.rs");
    section.fold_parent();
    assert_eq!(visible_paths(&section), vec!["src", "zzz.rs"]);
    assert_eq!(section.all_nodes[section.visible[section.cursor]].path, "src");
}

#[test]
fn files_under_dir_collects_the_subtree() {
    let section = section_from(&[
        ("src/a.rs", ' ', 'M'),
        ("src/deep/b.rs", ' ', 'M'),
        ("srcx.rs", ' ', 'M'),
    ]);
    let under = section.files_under_dir("src");
    assert_eq!(under, vec!["src/a.rs", "src/deep/b.rs"]);
}

#[test]
fn fold_state_survives_a_rebuild() {
    let mut section = section_from(&[("src/a.rs", ' ', 'M')]);
    section.cursor = 0;
    section.set_expanded(false);
    let recs: Vec<(String, char, char)> = vec![
        ("src/a.rs".to_string(), ' ', 'M'),
        ("src/b.rs".to_string(), ' ', 'M'),
    ];
    build_section(&mut section.all_nodes, &recs);
    rebuild_section_visible(&mut section);
    assert_eq!(visible_paths(&section), vec!["src"]);
}

#[test]
fn duplicate_file_records_keep_the_last_status() {
    let section = section_from(&[("a.rs", ' ', 'M'), ("a.rs", 'A', ' ')]);
    assert_eq!(section.all_nodes.len(), 1);
    assert_eq!(section.all_nodes[0].staged, 'A');
    assert_eq!(section.all_nodes[0].unstaged, ' ');
}

#[test]
fn file_count_ignores_directories() {
    let section = section_from(&[("src/a.rs", ' ', 'M'), ("src/b.rs", ' ', 'M')]);
    assert_eq!(section.file_count(), 2);
    assert_eq!(section.all_nodes.len(), 3);
}
