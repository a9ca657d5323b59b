//! The navigation controller: two tree panes, the diff view and the
//! line-selection mode, tied together by a focus state machine. The
//! controller is pure: everything the outside world must do for it
//! (fetch a status listing, fetch diff text, apply a patch, copy to the
//! clipboard) is returned as an `Effect` value, and the outside hands
//! the results back through the `*_applied`, `load_diff` and
//! `refresh_*` methods.

use vstd::prelude::*;

verus! {

use vstd::string::StrSliceExecFns;
use vstd::string::StringExecFns;
use crate::config::Config;
use crate::diff::{FileDiff, file_diff_model, spec_parse_diff, parse_diff};
use crate::status::GitFile;
use crate::text::{starts_with, spec_lines, split_lines, str_starts_with};
use crate::tree::{TreeSection, rebuild_section_visible, build_section};

/// Which part of the screen holds the input focus.
#[derive(Debug, Clone, PartialEq, Eq, Structural)]
pub enum Focus {
    Unstaged,
    Staged,
    DiffView,
    InlineSelect,
}

/// One of the two tree panes.
#[derive(Debug, Clone, Copy, PartialEq, Eq, Structural)]
pub enum TreePane {
    Unstaged,
    Staged,
}

/// The focus value of a pane.
pub open spec fn pane_focus(p: TreePane) -> Focus {
    match p {
        TreePane::Unstaged => Focus::Unstaged,
        TreePane::Staged => Focus::Staged,
    }
}

impl TreePane {
    /// The pane's display label.
    pub fn label(self) -> (r: &'static str)
        ensures
            self is Unstaged ==> r@ == "Unstaged"@,
            self is Staged ==> r@ == "Staged"@,
    {
        match self {
            TreePane::Unstaged => "Unstaged",
            TreePane::Staged => "Staged",
        }
    }

    /// The focus value that selects this pane.
    pub fn to_focus(self) -> (r: Focus)
        ensures
            r == pane_focus(self),
    {
        match self {
            TreePane::Unstaged => Focus::Unstaged,
            TreePane::Staged => Focus::Staged,
        }
    }

    /// Whether this pane shows recorded changes.
    pub fn is_staged(self) -> (r: bool)
        ensures
            r == (self is Staged),
    {
        match self {
            TreePane::Staged => true,
            TreePane::Unstaged => false,
        }
    }
}

/// The diff renderer in use, fixed at startup.
#[derive(Debug, Clone, PartialEq, Eq, Structural)]
pub enum DiffTool {
    Raw,
    Delta,
    Difftastic,
}

/// `s` matches the lower-case ASCII word `t` up to ASCII case.
pub open spec fn ascii_matches(s: Seq<char>, t: Seq<char>) -> bool {
    s.len() == t.len() && forall|i: int| 0 <= i < s.len() ==> (#[trigger] s[i]) == t[i] || (65
        <= s[i] as u32 <= 90 && s[i] as u32 + 32 == t[i] as u32)
}

/// Which renderer a configured name selects; anything unrecognized
/// falls back to the raw renderer.
pub open spec fn spec_tool_from(s: Seq<char>) -> DiffTool {
    if ascii_matches(s, "delta"@) {
        DiffTool::Delta
    } else if ascii_matches(s, "difftastic"@) {
        DiffTool::Difftastic
    } else {
        DiffTool::Raw
    }
}

fn ascii_matches_exec(s: &str, t: &str) -> (r: bool)
    ensures
        r == ascii_matches(s@, t@),
{
    let n = s.unicode_len();
    let m = t.unicode_len();
    if n != m {
        return false;
    }
    let mut i: usize = 0;
    while i < n
        invariant
            i <= n,
            n == s@.len(),
            n == t@.len(),
            forall|j: int| 0 <= j < i ==> (#[trigger] s@[j]) == t@[j] || (65 <= s@[j] as u32 <= 90
                && s@[j] as u32 + 32 == t@[j] as u32),
        decreases n - i,
    {
        let a = s.get_char(i);
        let b = t.get_char(i);
        let ua = a as u32;
        let ub = b as u32;
        let folded = if 65 <= ua && ua <= 90 {
            ua + 32
        } else {
            ua
        };
        if a != b && folded != ub {
            if ua == ub {
                assert(a == b);
            }
            return false;
        }
        i += 1;
    }
    true
}

impl DiffTool {
    /// Selects the renderer a configured name asks for, matched
    /// without regard to ASCII case.
    pub fn from_str(s: &str) -> (r: DiffTool)
        ensures
            r == spec_tool_from(s@),
    {
        if ascii_matches_exec(s, "delta") {
            DiffTool::Delta
        } else if ascii_matches_exec(s, "difftastic") {
            DiffTool::Difftastic
        } else {
            DiffTool::Raw
        }
    }

    /// The renderer's configured name.
    pub fn name(&self) -> (r: &str)
        ensures
            self is Raw ==> r@ == "raw"@,
            self is Delta ==> r@ == "delta"@,
            self is Difftastic ==> r@ == "difftastic"@,
    {
        match self {
            DiffTool::Raw => "raw",
            DiffTool::Delta => "delta",
            DiffTool::Difftastic => "difftastic",
        }
    }

    /// Whether the renderer exposes line-level structure, which the
    /// line-selection mode needs.
    pub fn supports_line_ops(&self) -> (r: bool)
        ensures
            r == !(self is Difftastic),
    {
        match self {
            DiffTool::Difftastic => false,
            _ => true,
        }
    }
}

/// Per displayed-line record of the raw diff: which hunk the line
/// belongs to, its index within the hunk body, and whether a line-level
/// action may target it.
#[derive(Debug, Clone, Copy)]
pub struct DisplayLineInfo {
    pub hunk_idx: Option<usize>,
    pub line_in_hunk: Option<usize>,
    pub is_selectable: bool,
}

/// The line-scan state: the records built so far, the hunk the scan is
/// inside, the next index within that hunk, and how many hunk headers
/// have been seen.
pub struct LineScan {
    pub infos: Seq<DisplayLineInfo>,
    pub hunk: Option<usize>,
    pub line_in_hunk: int,
    pub counter: int,
}

/// One raw-diff line applied to the scan: a hunk header starts a new
/// hunk and is itself not selectable; inside a hunk a line is
/// selectable exactly when it starts with `'+'` or `'-'`; before any
/// hunk a line carries no addressing.
pub open spec fn line_scan_step(st: LineScan, line: Seq<char>) -> LineScan {
    if starts_with(line, "@@"@) {
        LineScan {
            infos: st.infos.push(
                DisplayLineInfo {
                    hunk_idx: Some(st.counter as usize),
                    line_in_hunk: None,
                    is_selectable: false,
                },
            ),
            hunk: Some(st.counter as usize),
            line_in_hunk: 0,
            counter: st.counter + 1,
        }
    } else {
        match st.hunk {
            Some(h) => LineScan {
                infos: st.infos.push(
                    DisplayLineInfo {
                        hunk_idx: Some(h),
                        line_in_hunk: Some(st.line_in_hunk as usize),
                        is_selectable: line.len() > 0 && (line[0] == '+' || line[0] == '-'),
                    },
                ),
                hunk: Some(h),
                line_in_hunk: st.line_in_hunk + 1,
                counter: st.counter,
            },
            None => LineScan {
                infos: st.infos.push(
                    DisplayLineInfo { hunk_idx: None, line_in_hunk: None, is_selectable: false },
                ),
                hunk: None,
                line_in_hunk: st.line_in_hunk,
                counter: st.counter,
            },
        }
    }
}

/// The scan state after consuming `lines`.
pub open spec fn line_scan_from(lines: Seq<Seq<char>>, st: LineScan) -> LineScan
    decreases lines.len(),
{
    if lines.len() == 0 {
        st
    } else {
        line_scan_from(lines.drop_first(), line_scan_step(st, lines[0]))
    }
}

/// The initial scan state.
pub open spec fn line_scan_init() -> LineScan {
    LineScan { infos: seq![], hunk: None, line_in_hunk: 0, counter: 0 }
}

/// The display-line records of a raw diff text: exactly one per line,
/// in order.
pub open spec fn spec_line_infos(text: Seq<char>) -> Seq<DisplayLineInfo> {
    line_scan_from(spec_lines(text), line_scan_init()).infos
}

/// A request to fetch and show the diff of one file from one pane.
#[derive(Debug, Clone)]
pub struct DiffRequest {
    pub path: String,
    pub pane: TreePane,
}

/// A request to record or un-record a set of files.
#[derive(Debug, Clone)]
pub struct StageRequest {
    pub paths: Vec<String>,
    pub unstage: bool,
    pub is_dir: bool,
    pub label: String,
}

/// A request to apply a synthesized patch to the recorded state.
#[derive(Debug, Clone)]
pub struct ApplyRequest {
    pub patch: String,
    pub prev_cursor: usize,
}

/// What the controller asks the outside world to do next. The shell
/// performs the work and hands the result back through the matching
/// continuation method.
#[derive(Debug, Clone)]
pub enum Effect {
    /// Nothing to do.
    Idle,
    /// Fetch the raw and display diff text for the request, then call
    /// `load_diff`.
    FetchDiff(DiffRequest),
    /// Re-fetch the diff text of the current file, then call
    /// `reload_current_diff`.
    ReloadDiff,
    /// Record or un-record the listed files, then re-fetch the status
    /// and call `refresh_after_tree_op`.
    Stage(StageRequest),
    /// Apply the patch to the recorded state; on success re-fetch the
    /// status, call `line_applied`, and follow its effect.
    ApplyPatch(ApplyRequest),
    /// Copy the path to the clipboard.
    CopyPath(String),
    /// Re-fetch the status for both panes, then call
    /// `refresh_latest_state`.
    Refresh,
}

/// The records of a status listing that belong to one pane: the
/// worktree pane takes every record whose worktree column is not blank;
/// the recorded pane takes every record whose recorded column is
/// neither blank nor untracked.
pub open spec fn pane_records(files: Seq<GitFile>, staged_pane: bool) -> Seq<(String, char, char)>
    decreases files.len(),
{
    if files.len() == 0 {
        seq![]
    } else {
        pane_records(files.drop_last(), staged_pane) + ({
            let f = files.last();
            if (!staged_pane && f.unstaged != ' ') || (staged_pane && f.staged != ' ' && f.staged
                != '?') {
                seq![(f.path, f.staged, f.unstaged)]
            } else {
                seq![]
            }
        })
    }
}

fn pane_records_exec(files: &Vec<GitFile>, staged_pane: bool) -> (r: Vec<(String, char, char)>)
    ensures
        r@ == pane_records(files@, staged_pane),
{
    let n = files.len();
    let mut out: Vec<(String, char, char)> = Vec::new();
    let mut i: usize = 0;
    proof {
        assert(files@.take(0) =~= Seq::<GitFile>::empty());
        assert(out@ =~= pane_records(files@.take(0), staged_pane));
    }
    while i < n
        invariant
            i <= n,
            n == files@.len(),
            out@ == pane_records(files@.take(i as int), staged_pane),
        decreases n - i,
    {
        proof {
            assert(files@.take(i + 1).drop_last() =~= files@.take(i as int));
            assert(files@.take(i + 1).last() == files@[i as int]);
        }
        let ghost prev = out@;
        let f = &files[i];
        let keep = if staged_pane {
            f.staged != ' ' && f.staged != '?'
        } else {
            f.unstaged != ' '
        };
        if keep {
            out.push((f.path.clone(), f.staged, f.unstaged));
            proof {
                let ghost fi = files@[i as int];
                assert(out@ =~= prev + seq![(fi.path, fi.staged, fi.unstaged)]);
            }
        } else {
            proof {
                assert(out@ =~= prev + Seq::<(String, char, char)>::empty());
            }
        }
        i += 1;
    }
    proof {
        assert(files@.take(n as int) =~= files@);
    }
    out
}

/// The whole controller state.
pub struct App {
    pub should_quit: bool,
    pub focus: Focus,
    pub config: Config,
    pub tool: DiffTool,
    pub unstaged: TreeSection,
    pub staged: TreeSection,
    pub diff_origin: Option<TreePane>,
    pub display_diff: String,
    pub raw_diff: String,
    pub file_diff: FileDiff,
    pub diff_scroll: usize,
    pub diff_cursor: usize,
    pub hunk_cursor: usize,
    pub current_file: Option<String>,
    pub line_infos: Vec<DisplayLineInfo>,
    pub diff_pane_height: usize,
    pub diff_pane_width: u16,
    pub status_message: Option<String>,
    pub error_message: Option<String>,
}

impl App {
    /// The structured diff and the line records always describe the
    /// raw diff text currently held.
    pub open spec fn diff_state_ok(self) -> bool {
        file_diff_model(self.file_diff) == spec_parse_diff(self.raw_diff@)
            && self.line_infos@ == spec_line_infos(self.raw_diff@)
    }

    /// Well-formed: both panes in sync with clamped cursors, a usable
    /// viewport height, and coherent diff state.
    pub open spec fn wf(self) -> bool {
        self.unstaged.wf() && self.staged.wf() && 1 <= self.diff_pane_height <= 65535
            && self.diff_state_ok()
    }

    /// A fresh controller with empty panes and no diff loaded.
    pub fn new(config: Config, tool: DiffTool, pane_width: u16) -> (r: App)
        ensures
            r.wf(),
            !r.should_quit,
            r.focus == Focus::Unstaged,
            r.tool == tool,
            r.unstaged.all_nodes@.len() == 0,
            r.staged.all_nodes@.len() == 0,
            r.diff_origin is None,
            r.current_file is None,
            r.raw_diff@ == Seq::<char>::empty(),
            r.diff_pane_width == pane_width,
    {
        let r = App {
            should_quit: false,
            focus: Focus::Unstaged,
            config,
            tool,
            unstaged: TreeSection::new(),
            staged: TreeSection::new(),
            diff_origin: None,
            display_diff: String::new(),
            raw_diff: String::new(),
            file_diff: FileDiff::default(),
            diff_scroll: 0,
            diff_cursor: 0,
            hunk_cursor: 0,
            current_file: None,
            line_infos: Vec::new(),
            diff_pane_height: 20,
            diff_pane_width: pane_width,
            status_message: None,
            error_message: None,
        };
        proof {
            lemma_empty_diff_state(r.raw_diff@);
            assert(r.line_infos@ =~= Seq::<DisplayLineInfo>::empty());
            assert(file_diff_model(r.file_diff).hunks =~= spec_parse_diff(r.raw_diff@).hunks);
        }
        r
    }

    /// Records the viewport size; the height is kept at least one row
    /// and within the terminal's range.
    pub fn set_viewport(&mut self, width: u16, height: usize)
        requires
            old(self).wf(),
        ensures
            final(self).wf(),
            final(self).diff_pane_width == width,
            final(self).diff_pane_height == if height < 1 {
                1int
            } else if height > 65535 {
                65535int
            } else {
                height as int
            },
            *final(self) == (App {
                diff_pane_width: width,
                diff_pane_height: final(self).diff_pane_height,
                ..*old(self)
            }),
    {
        self.diff_pane_width = width;
        self.diff_pane_height = if height < 1 {
            1
        } else if height > 65535 {
            65535
        } else {
            height
        };
    }

    /// The section of one pane.
    pub open spec fn spec_tree(self, pane: TreePane) -> TreeSection {
        match pane {
            TreePane::Unstaged => self.unstaged,
            TreePane::Staged => self.staged,
        }
    }

    /// Read access to one pane's section.
    pub fn tree(&self, pane: TreePane) -> (r: &TreeSection)
        ensures
            *r == self.spec_tree(pane),
    {
        match pane {
            TreePane::Unstaged => &self.unstaged,
            TreePane::Staged => &self.staged,
        }
    }

    /// Whether the given pane holds the focus.
    pub fn is_tree_focused(&self, pane: TreePane) -> (r: bool)
        ensures
            r == (self.focus == pane_focus(pane)),
    {
        match pane {
            TreePane::Unstaged => self.focus == Focus::Unstaged,
            TreePane::Staged => self.focus == Focus::Staged,
        }
    }

    /// The pane holding the focus, when one does.
    pub fn focused_pane(&self) -> (r: Option<TreePane>)
        ensures
            r == (match self.focus {
                Focus::Unstaged => Some(TreePane::Unstaged),
                Focus::Staged => Some(TreePane::Staged),
                _ => None::<TreePane>,
            }),
    {
        match self.focus {
            Focus::Unstaged => Some(TreePane::Unstaged),
            Focus::Staged => Some(TreePane::Staged),
            _ => None,
        }
    }

    /// Rebuilds both panes from a fresh status listing, splitting the
    /// records by the pane membership rules and keeping each pane's
    /// fold state.
    pub fn refresh_trees(&mut self, files: &Vec<GitFile>)
        requires
            old(self).wf(),
        ensures
            final(self).wf(),
            crate::tree::sorted_unique(final(self).unstaged.all_nodes@),
            crate::tree::sorted_unique(final(self).staged.all_nodes@),
            forall|m: crate::tree::NodeModel|
                #[trigger] crate::tree::contains_model(final(self).unstaged.all_nodes@, m)
                    == crate::tree::built_member(
                    pane_records(files@, false),
                    old(self).unstaged.all_nodes@,
                    m,
                ),
            forall|m: crate::tree::NodeModel|
                #[trigger] crate::tree::contains_model(final(self).staged.all_nodes@, m)
                    == crate::tree::built_member(
                    pane_records(files@, true),
                    old(self).staged.all_nodes@,
                    m,
                ),
            final(self).focus == old(self).focus,
            diff_fields_eq(*old(self), *final(self)),
            final(self).status_message == old(self).status_message,
            final(self).error_message == old(self).error_message,
            final(self).should_quit == old(self).should_quit,
            final(self).tool == old(self).tool,
            final(self).diff_pane_height == old(self).diff_pane_height,
            final(self).diff_pane_width == old(self).diff_pane_width,
    {
        let unstaged_files = pane_records_exec(files, false);
        let staged_files = pane_records_exec(files, true);
        build_section(&mut self.unstaged.all_nodes, unstaged_files.as_slice());
        rebuild_section_visible(&mut self.unstaged);
        build_section(&mut self.staged.all_nodes, staged_files.as_slice());
        rebuild_section_visible(&mut self.staged);
    }
}

proof fn lemma_line_scan_len(lines: Seq<Seq<char>>, st: LineScan)
    ensures
        line_scan_from(lines, st).infos.len() == st.infos.len() + lines.len(),
    decreases lines.len(),
{
    if lines.len() > 0 {
        lemma_line_scan_len(lines.drop_first(), line_scan_step(st, lines[0]));
    }
}

/// There is one display-line record per line of the text.
pub proof fn lemma_line_infos_len(t: Seq<char>)
    ensures
        spec_line_infos(t).len() == spec_lines(t).len(),
{
    lemma_line_scan_len(spec_lines(t), line_scan_init());
}

impl App {
    /// Recomputes the display-line records from the raw diff text.
    fn build_line_infos(&mut self)
        ensures
            *final(self) == (App { line_infos: final(self).line_infos, ..*old(self) }),
            final(self).line_infos@ == spec_line_infos(old(self).raw_diff@),
    {
        let lines = split_lines(self.raw_diff.as_str());
        let ghost all = lines.deep_view();
        let mut infos: Vec<DisplayLineInfo> = Vec::new();
        let mut hunk: Option<usize> = None;
        let mut line_in_hunk: usize = 0;
        let mut counter: usize = 0;
        let n = lines.len();
        let mut i: usize = 0;
        proof {
            assert(all.skip(0) =~= all);
            assert(infos@ =~= Seq::<DisplayLineInfo>::empty());
        }
        while i < n
            invariant
                i <= n,
                n == all.len(),
                n == lines@.len(),
                all == lines.deep_view(),
                counter <= i,
                line_in_hunk <= i,
                line_scan_from(all, line_scan_init()) == line_scan_from(
                    all.skip(i as int),
                    LineScan {
                        infos: infos@,
                        hunk: hunk,
                        line_in_hunk: line_in_hunk as int,
                        counter: counter as int,
                    },
                ),
            decreases n - i,
        {
            let ghost st = LineScan {
                infos: infos@,
                hunk: hunk,
                line_in_hunk: line_in_hunk as int,
                counter: counter as int,
            };
            let ghost line_v = all[i as int];
            proof {
                assert(lines@[i as int]@ == all[i as int]);
                assert(all.skip(i as int)[0] == line_v);
                assert(all.skip(i as int).drop_first() =~= all.skip(i + 1));
            }
            let line = &lines[i];
            if str_starts_with(line.as_str(), "@@") {
                infos.push(
                    DisplayLineInfo {
                        hunk_idx: Some(counter),
                        line_in_hunk: None,
                        is_selectable: false,
                    },
                );
                hunk = Some(counter);
                line_in_hunk = 0;
                counter += 1;
            } else {
                match hunk {
                    Some(h) => {
                        let m = line.as_str().unicode_len();
                        let sel = m > 0 && (line.as_str().get_char(0) == '+' || line.as_str()
                            .get_char(0) == '-');
                        infos.push(
                            DisplayLineInfo {
                                hunk_idx: Some(h),
                                line_in_hunk: Some(line_in_hunk),
                                is_selectable: sel,
                            },
                        );
                        line_in_hunk += 1;
                    },
                    None => {
                        infos.push(
                            DisplayLineInfo {
                                hunk_idx: None,
                                line_in_hunk: None,
                                is_selectable: false,
                            },
                        );
                    },
                }
            }
            proof {
                assert(LineScan {
                    infos: infos@,
                    hunk: hunk,
                    line_in_hunk: line_in_hunk as int,
                    counter: counter as int,
                } == line_scan_step(st, line_v));
            }
            i += 1;
        }
        proof {
            assert(all.skip(n as int) =~= Seq::<Seq<char>>::empty());
        }
        self.line_infos = infos;
    }

    /// Installs freshly fetched diff text for one file: parses the raw
    /// text, rebuilds the line records, and resets scrolling and the
    /// cursors.
    pub fn load_diff(&mut self, path: &str, pane: TreePane, raw: &str, display: &str)
        requires
            old(self).wf(),
        ensures
            final(self).wf(),
            *final(self) == (App {
                raw_diff: final(self).raw_diff,
                display_diff: final(self).display_diff,
                file_diff: final(self).file_diff,
                current_file: final(self).current_file,
                diff_origin: Some(pane),
                diff_scroll: 0,
                diff_cursor: 0,
                hunk_cursor: 0,
                line_infos: final(self).line_infos,
                ..*old(self)
            }),
            final(self).raw_diff@ == raw@,
            final(self).display_diff@ == display@,
            file_diff_model(final(self).file_diff) == spec_parse_diff(raw@),
            final(self).line_infos@ == spec_line_infos(raw@),
            (final(self).current_file matches Some(p) && p@ == path@),
    {
        self.raw_diff = raw.to_owned();
        self.display_diff = display.to_owned();
        self.file_diff = parse_diff(raw);
        self.current_file = Some(path.to_owned());
        self.diff_origin = Some(pane);
        self.diff_scroll = 0;
        self.diff_cursor = 0;
        self.hunk_cursor = 0;
        self.build_line_infos();
    }

    /// Clears every piece of diff state; used when no file is
    /// selected.
    pub fn clear_diff(&mut self)
        requires
            old(self).wf(),
        ensures
            final(self).wf(),
            *final(self) == (App {
                raw_diff: final(self).raw_diff,
                display_diff: final(self).display_diff,
                file_diff: final(self).file_diff,
                current_file: None,
                diff_origin: None,
                diff_scroll: 0,
                diff_cursor: 0,
                hunk_cursor: 0,
                line_infos: final(self).line_infos,
                ..*old(self)
            }),
            final(self).raw_diff@ == Seq::<char>::empty(),
            final(self).display_diff@ == Seq::<char>::empty(),
            final(self).file_diff.hunks@.len() == 0,
            final(self).line_infos@.len() == 0,
    {
        self.display_diff = String::new();
        self.raw_diff = String::new();
        self.file_diff = FileDiff::default();
        self.current_file = None;
        self.diff_origin = None;
        self.diff_scroll = 0;
        self.diff_cursor = 0;
        self.hunk_cursor = 0;
        self.line_infos = Vec::new();
        proof {
            lemma_empty_diff_state(self.raw_diff@);
            assert(self.line_infos@ =~= Seq::<DisplayLineInfo>::empty());
            assert(file_diff_model(self.file_diff).hunks =~= spec_parse_diff(
                self.raw_diff@,
            ).hunks);
        }
    }

    /// Shows the placeholder for an untracked file, whose content has
    /// no diff to parse.
    pub fn set_untracked_diff_message(&mut self, path: String, pane: TreePane)
        requires
            old(self).wf(),
        ensures
            final(self).wf(),
            *final(self) == (App {
                raw_diff: final(self).raw_diff,
                display_diff: final(self).display_diff,
                file_diff: final(self).file_diff,
                current_file: Some(path),
                diff_origin: Some(pane),
                diff_scroll: 0,
                diff_cursor: 0,
                hunk_cursor: 0,
                line_infos: final(self).line_infos,
                ..*old(self)
            }),
            final(self).raw_diff@ == Seq::<char>::empty(),
            final(self).display_diff@ == "(untracked file – press Enter to stage it)"@,
            final(self).file_diff.hunks@.len() == 0,
            final(self).line_infos@.len() == 0,
    {
        self.display_diff = String::from_str("(untracked file – press Enter to stage it)");
        self.raw_diff = String::new();
        self.file_diff = FileDiff::default();
        self.current_file = Some(path);
        self.diff_origin = Some(pane);
        self.diff_scroll = 0;
        self.diff_cursor = 0;
        self.hunk_cursor = 0;
        self.line_infos = Vec::new();
        proof {
            lemma_empty_diff_state(self.raw_diff@);
            assert(self.line_infos@ =~= Seq::<DisplayLineInfo>::empty());
            assert(file_diff_model(self.file_diff).hunks =~= spec_parse_diff(
                self.raw_diff@,
            ).hunks);
        }
    }

    /// Reloads the current file's diff from freshly fetched text,
    /// keeping the scroll position and the line cursor as far as the
    /// new text allows. Without a current file nothing changes.
    pub fn reload_current_diff(&mut self, raw: &str, display: &str)
        requires
            old(self).wf(),
        ensures
            final(self).wf(),
            (old(self).current_file is Some && old(self).diff_origin is Some) ==> ({
                &&& final(self).raw_diff@ == raw@
                &&& final(self).display_diff@ == display@
                &&& (final(self).current_file matches Some(p) && old(self).current_file matches
                    Some(q) && p@ == q@)
                &&& final(self).diff_origin == old(self).diff_origin
                &&& final(self).diff_scroll == spec_min_sat(
                    old(self).diff_scroll as int,
                    spec_lines(raw@).len() as int,
                )
                &&& final(self).diff_cursor == spec_min_sat(
                    old(self).diff_cursor as int,
                    spec_lines(raw@).len() as int,
                )
                &&& final(self).focus == old(self).focus
                &&& final(self).unstaged == old(self).unstaged
                &&& final(self).staged == old(self).staged
            }),
            !(old(self).current_file is Some && old(self).diff_origin is Some) ==> *final(self)
                == *old(self),
    {
        let path = match &self.current_file {
            Some(p) => p.clone(),
            None => {
                return ;
            },
        };
        let pane = match self.diff_origin {
            Some(p) => p,
            None => {
                return ;
            },
        };
        let prev_scroll = self.diff_scroll;
        let prev_cursor = self.diff_cursor;
        self.load_diff(path.as_str(), pane, raw, display);
        proof {
            lemma_line_infos_len(raw@);
        }
        let line_count = self.line_infos.len();
        let cap = if line_count == 0 {
            0
        } else {
            line_count - 1
        };
        self.diff_scroll = if prev_scroll < cap {
            prev_scroll
        } else {
            cap
        };
        self.diff_cursor = if prev_cursor < cap {
            prev_cursor
        } else {
            cap
        };
    }

    /// The pane holds an untracked file node with the given path.
    pub fn has_untracked_file_in_pane(&self, pane: TreePane, path: &str) -> (r: bool)
        ensures
            r == has_untracked_node(self.spec_tree(pane), path@),
    {
        let section = self.tree(pane);
        let n = section.all_nodes.len();
        let mut i: usize = 0;
        while i < n
            invariant
                i <= n,
                n == self.spec_tree(pane).all_nodes@.len(),
                *section == self.spec_tree(pane),
                forall|j: int|
                    0 <= j < i ==> !({
                        let nd = #[trigger] self.spec_tree(pane).all_nodes@[j];
                        !nd.is_dir && nd.path@ == path@ && nd.staged == '?' && nd.unstaged == '?'
                    }),
            decreases n - i,
    {
            let node = &section.all_nodes[i];
            if !node.is_dir && crate::text::str_eq(node.path.as_str(), path) && node.staged == '?'
                && node.unstaged == '?' {
                return true;
            }
            i += 1;
        }
        false
    }
}

/// The two states agree on every diff-view field (text, parse, cursors
/// and scroll), whatever else differs.
pub open spec fn diff_fields_eq(a: App, b: App) -> bool {
    &&& b.raw_diff == a.raw_diff
    &&& b.display_diff == a.display_diff
    &&& b.file_diff == a.file_diff
    &&& b.current_file == a.current_file
    &&& b.diff_origin == a.diff_origin
    &&& b.diff_scroll == a.diff_scroll
    &&& b.diff_cursor == a.diff_cursor
    &&& b.hunk_cursor == a.hunk_cursor
    &&& b.line_infos == a.line_infos
}

/// The section holds an untracked file node with the given path.
pub open spec fn has_untracked_node(sec: TreeSection, path: Seq<char>) -> bool {
    exists|i: int|
        0 <= i < sec.all_nodes@.len() && ({
            let n = #[trigger] sec.all_nodes@[i];
            !n.is_dir && n.path@ == path && n.staged == '?' && n.unstaged == '?'
        })
}

/// `post` shows the untracked-file placeholder for `path` from `pane`.
pub open spec fn untracked_fields(post: App, path: Seq<char>, pane: TreePane) -> bool {
    &&& post.raw_diff@ == Seq::<char>::empty()
    &&& post.display_diff@ == "(untracked file – press Enter to stage it)"@
    &&& post.file_diff.hunks@.len() == 0
    &&& post.line_infos@.len() == 0
    &&& (post.current_file matches Some(p) && p@ == path)
    &&& post.diff_origin == Some(pane)
    &&& post.diff_scroll == 0
    &&& post.diff_cursor == 0
    &&& post.hunk_cursor == 0
}

/// `post` shows no diff at all.
pub open spec fn cleared_fields(post: App) -> bool {
    &&& post.raw_diff@ == Seq::<char>::empty()
    &&& post.display_diff@ == Seq::<char>::empty()
    &&& post.file_diff.hunks@.len() == 0
    &&& post.line_infos@.len() == 0
    &&& post.current_file is None
    &&& post.diff_origin is None
    &&& post.diff_scroll == 0
    &&& post.diff_cursor == 0
    &&& post.hunk_cursor == 0
}

/// What loading a preview for the row under the cursor of `sec` does
/// to the diff fields, and which fetch it requests: nothing on a
/// directory row; the untracked placeholder on an untracked file; a
/// fetch request on any other file; a cleared diff when the pane has no
/// row under the cursor.
pub open spec fn preview_outcome(
    pre: App,
    post: App,
    sec: TreeSection,
    pane: TreePane,
    r: Option<DiffRequest>,
) -> bool {
    if sec.cursor < sec.visible@.len() && sec.visible@[sec.cursor as int] < sec.all_nodes@.len() {
        let node = sec.all_nodes@[sec.visible@[sec.cursor as int] as int];
        if node.is_dir {
            diff_fields_eq(pre, post) && r is None
        } else if node.staged == '?' && node.unstaged == '?' {
            untracked_fields(post, node.path@, pane) && r is None
        } else {
            diff_fields_eq(pre, post) && (r matches Some(req) && req.path@ == node.path@
                && req.pane == pane)
        }
    } else {
        cleared_fields(post) && r is None
    }
}

/// The state after one cursor-down step: within the focused pane, or
/// crossing from the bottom of the worktree pane into the recorded
/// pane.
pub open spec fn spec_move_down(o: App) -> App {
    match o.focus {
        Focus::Unstaged => if o.unstaged.visible@.len() > 0 && o.unstaged.cursor + 1
            < o.unstaged.visible@.len() {
            App {
                unstaged: TreeSection { cursor: (o.unstaged.cursor + 1) as usize, ..o.unstaged },
                ..o
            }
        } else if o.staged.visible@.len() > 0 {
            App { focus: Focus::Staged, staged: TreeSection { cursor: 0, ..o.staged }, ..o }
        } else {
            o
        },
        Focus::Staged => if o.staged.visible@.len() > 0 && o.staged.cursor + 1
            < o.staged.visible@.len() {
            App { staged: TreeSection { cursor: (o.staged.cursor + 1) as usize, ..o.staged }, ..o }
        } else {
            o
        },
        _ => o,
    }
}

/// The state after one cursor-up step: within the focused pane, or
/// crossing from the top of the recorded pane onto the worktree pane's
/// last row.
pub open spec fn spec_move_up(o: App) -> App {
    match o.focus {
        Focus::Unstaged => if o.unstaged.cursor > 0 {
            App {
                unstaged: TreeSection { cursor: (o.unstaged.cursor - 1) as usize, ..o.unstaged },
                ..o
            }
        } else {
            o
        },
        Focus::Staged => if o.staged.cursor > 0 {
            App { staged: TreeSection { cursor: (o.staged.cursor - 1) as usize, ..o.staged }, ..o }
        } else if o.unstaged.visible@.len() > 0 {
            App {
                focus: Focus::Unstaged,
                unstaged: TreeSection {
                    cursor: (o.unstaged.visible@.len() - 1) as usize,
                    ..o.unstaged
                },
                ..o
            }
        } else {
            o
        },
        _ => o,
    }
}

impl App {
    /// Loads the preview for the row under the cursor of the focused
    /// pane: clears the diff when the pane is empty, shows the
    /// untracked placeholder, or asks the shell to fetch the file's
    /// diff. Directory rows leave the diff alone.
    pub fn tree_load_preview(&mut self) -> (r: Option<DiffRequest>)
        requires
            old(self).wf(),
        ensures
            final(self).wf(),
            final(self).unstaged == old(self).unstaged,
            final(self).staged == old(self).staged,
            final(self).focus == old(self).focus,
            final(self).should_quit == old(self).should_quit,
            final(self).status_message == old(self).status_message,
            final(self).error_message == old(self).error_message,
            match old(self).focus {
                Focus::Unstaged => preview_outcome(
                    *old(self),
                    *final(self),
                    old(self).unstaged,
                    TreePane::Unstaged,
                    r,
                ),
                Focus::Staged => preview_outcome(
                    *old(self),
                    *final(self),
                    old(self).staged,
                    TreePane::Staged,
                    r,
                ),
                _ => *final(self) == *old(self) && r is None,
            },
    {
        let pane = match self.focused_pane() {
            Some(p) => p,
            None => {
                return None;
            },
        };
        let (found, is_dir, is_untracked, path) = {
            let section = self.tree(pane);
            match section.current_node() {
                Some(n) => (true, n.is_dir, n.staged == '?' && n.unstaged == '?', n.path.clone()),
                None => (false, false, false, String::new()),
            }
        };
        if !found {
            self.clear_diff();
            return None;
        }
        if is_dir {
            return None;
        }
        if is_untracked {
            self.set_untracked_diff_message(path, pane);
            return None;
        }
        Some(DiffRequest { path, pane })
    }

    /// Moves the tree cursor one row down; at the bottom of the
    /// worktree pane it crosses into the recorded pane when that pane
    /// has rows, so the two panes behave as one list.
    pub fn tree_move_down(&mut self)
        requires
            old(self).wf(),
        ensures
            final(self).wf(),
            *final(self) == spec_move_down(*old(self)),
    {
        let pane = match self.focused_pane() {
            Some(p) => p,
            None => {
                return ;
            },
        };
        let can_move = {
            let tree = self.tree(pane);
            let len = tree.visible.len();
            len > 0 && tree.cursor + 1 < len
        };
        if can_move {
            match pane {
                TreePane::Unstaged => {
                    self.unstaged.cursor = self.unstaged.cursor + 1;
                },
                TreePane::Staged => {
                    self.staged.cursor = self.staged.cursor + 1;
                },
            }
        } else if matches!(pane, TreePane::Unstaged) && self.staged.visible.len() > 0 {
            self.focus = Focus::Staged;
            self.staged.cursor = 0;
        }
    }

    /// Moves the tree cursor one row up; at the top of the recorded
    /// pane it crosses into the worktree pane's last row when that pane
    /// has rows.
    pub fn tree_move_up(&mut self)
        requires
            old(self).wf(),
        ensures
            final(self).wf(),
            *final(self) == spec_move_up(*old(self)),
    {
        let pane = match self.focused_pane() {
            Some(p) => p,
            None => {
                return ;
            },
        };
        let can_move = {
            let tree = self.tree(pane);
            tree.cursor > 0
        };
        if can_move {
            match pane {
                TreePane::Unstaged => {
                    self.unstaged.cursor = self.unstaged.cursor - 1;
                },
                TreePane::Staged => {
                    self.staged.cursor = self.staged.cursor - 1;
                },
            }
        } else if matches!(pane, TreePane::Staged) && self.unstaged.visible.len() > 0 {
            self.focus = Focus::Unstaged;
            self.unstaged.cursor = self.unstaged.visible.len() - 1;
        }
    }

    /// Opens the row under the cursor: a directory is expanded with the
    /// cursor advancing onto its first child, and the preview follows;
    /// a file's diff is fetched (or the untracked placeholder shown)
    /// and the focus moves to the diff view.
    pub fn tree_action_right(&mut self) -> (r: Option<DiffRequest>)
        requires
            old(self).wf(),
        ensures
            final(self).wf(),
            action_right_ok(*old(self), *final(self), r),
    {
        let pane = match self.focused_pane() {
            Some(p) => p,
            None => {
                return None;
            },
        };
        let (found, is_dir, is_untracked, path) = {
            let section = self.tree(pane);
            match section.current_node() {
                Some(n) => (true, n.is_dir, n.staged == '?' && n.unstaged == '?', n.path.clone()),
                None => (false, false, false, String::new()),
            }
        };
        if !found {
            return None;
        }
        if is_dir {
            match pane {
                TreePane::Unstaged => self.unstaged.expand_and_enter(),
                TreePane::Staged => self.staged.expand_and_enter(),
            }
            return self.tree_load_preview();
        }
        if is_untracked {
            self.set_untracked_diff_message(path, pane);
            self.focus = Focus::DiffView;
            return None;
        }
        self.focus = Focus::DiffView;
        Some(DiffRequest { path, pane })
    }

    /// Collapses the row under the cursor: a directory closes in
    /// place; from a file the nearest ancestor directory closes and
    /// takes the cursor.
    pub fn tree_action_left(&mut self)
        requires
            old(self).wf(),
        ensures
            final(self).wf(),
            action_left_ok(*old(self), *final(self)),
    {
        let pane = match self.focused_pane() {
            Some(p) => p,
            None => {
                return ;
            },
        };
        let is_dir = {
            let section = self.tree(pane);
            match section.current_node() {
                Some(n) => n.is_dir,
                None => false,
            }
        };
        if is_dir {
            match pane {
                TreePane::Unstaged => self.unstaged.set_expanded(false),
                TreePane::Staged => self.staged.set_expanded(false),
            }
        } else {
            match pane {
                TreePane::Unstaged => self.unstaged.fold_parent(),
                TreePane::Staged => self.staged.fold_parent(),
            }
        }
    }
}

/// What collapsing the row under the cursor does: a directory closes
/// in place; from a file (or an empty spot) the nearest ancestor
/// directory closes and takes the cursor. Only the focused pane's
/// section changes.
pub open spec fn action_left_ok(o: App, post: App) -> bool {
    match o.focus {
        Focus::Unstaged | Focus::Staged => {
            let pane = if o.focus == Focus::Unstaged {
                TreePane::Unstaged
            } else {
                TreePane::Staged
            };
            let sec = o.spec_tree(pane);
            let on_dir = sec.cursor < sec.visible@.len() && sec.visible@[sec.cursor as int]
                < sec.all_nodes@.len() && sec.all_nodes@[sec.visible@[sec.cursor as int] as int].is_dir;
            &&& post.focus == o.focus
            &&& diff_fields_eq(o, post)
            &&& post.should_quit == o.should_quit
            &&& (if pane is Unstaged {
                post.staged == o.staged
            } else {
                post.unstaged == o.unstaged
            })
            &&& (if on_dir {
                crate::tree::set_expanded_ok(sec, post.spec_tree(pane), false)
            } else {
                crate::tree::fold_parent_ok(sec, post.spec_tree(pane))
            })
        },
        _ => post == o,
    }
}

/// The fetch request an effect carries, if any.
pub open spec fn eff_fetch(e: Effect) -> Option<DiffRequest> {
    match e {
        Effect::FetchDiff(q) => Some(q),
        _ => None,
    }
}

/// The record/un-record request an effect carries, if any.
pub open spec fn eff_stage(e: Effect) -> Option<StageRequest> {
    match e {
        Effect::Stage(q) => Some(q),
        _ => None,
    }
}

/// The clipboard path an effect carries, if any.
pub open spec fn eff_copy(e: Effect) -> Option<String> {
    match e {
        Effect::CopyPath(p) => Some(p),
        _ => None,
    }
}

/// What opening the row under the cursor does: a directory expands
/// (the cursor advancing onto its first child) and the preview
/// follows; a file hands the focus to the diff view, with the
/// untracked placeholder or a fetch request.
pub open spec fn action_right_ok(o: App, post: App, r: Option<DiffRequest>) -> bool {
    match o.focus {
        Focus::Unstaged | Focus::Staged => {
            let pane = if o.focus == Focus::Unstaged {
                TreePane::Unstaged
            } else {
                TreePane::Staged
            };
            let sec = o.spec_tree(pane);
            if sec.cursor < sec.visible@.len() && sec.visible@[sec.cursor as int]
                < sec.all_nodes@.len() {
                let node = sec.all_nodes@[sec.visible@[sec.cursor as int] as int];
                if node.is_dir {
                    post.focus == o.focus && (post.spec_tree(pane)).all_nodes@
                        == crate::tree::update_expanded(
                        sec.all_nodes@,
                        sec.visible@[sec.cursor as int] as int,
                        true,
                    ) && preview_outcome(o, post, post.spec_tree(pane), pane, r)
                } else if node.staged == '?' && node.unstaged == '?' {
                    post.focus == Focus::DiffView && untracked_fields(post, node.path@, pane) && r
                        is None && post.unstaged == o.unstaged && post.staged == o.staged
                } else {
                    post.focus == Focus::DiffView && diff_fields_eq(o, post) && (r matches Some(
                        req,
                    ) && req.path@ == node.path@ && req.pane == pane) && post.unstaged
                        == o.unstaged && post.staged == o.staged
                }
            } else {
                post == o && r is None
            }
        },
        _ => post == o && r is None,
    }
}

/// The record/un-record request the row under the cursor calls for: a
/// whole subtree for a directory, the single file otherwise, with the
/// status line to show on success; nothing without a tree focus or a
/// row.
pub open spec fn stage_request_ok(a: App, r: Option<StageRequest>) -> bool {
    match a.focus {
        Focus::Unstaged | Focus::Staged => {
            let pane = if a.focus == Focus::Unstaged {
                TreePane::Unstaged
            } else {
                TreePane::Staged
            };
            let sec = a.spec_tree(pane);
            if sec.cursor < sec.visible@.len() && sec.visible@[sec.cursor as int]
                < sec.all_nodes@.len() {
                let node = sec.all_nodes@[sec.visible@[sec.cursor as int] as int];
                r matches Some(req) && req.unstage == (pane is Staged) && req.is_dir
                    == node.is_dir && (if node.is_dir {
                    req.paths.deep_view() == crate::tree::files_under(sec.all_nodes@, node.path@)
                        && req.label@ == (if pane is Staged {
                        "Unstaged directory: "@
                    } else {
                        "Staged directory: "@
                    }) + node.path@
                } else {
                    req.paths.deep_view() == seq![node.path@] && req.label@ == (if pane
                        is Staged {
                        "Unstaged: "@
                    } else {
                        "Staged: "@
                    }) + node.path@
                })
            } else {
                r is None
            }
        },
        _ => r is None,
    }
}

/// The clipboard request the row under the cursor calls for: its path,
/// or nothing without a tree focus or a row.
pub open spec fn copy_request_ok(a: App, r: Option<String>) -> bool {
    match a.focus {
        Focus::Unstaged | Focus::Staged => {
            let pane = if a.focus == Focus::Unstaged {
                TreePane::Unstaged
            } else {
                TreePane::Staged
            };
            let sec = a.spec_tree(pane);
            if sec.cursor < sec.visible@.len() && sec.visible@[sec.cursor as int]
                < sec.all_nodes@.len() {
                r matches Some(p) && p@ == sec.all_nodes@[sec.visible@[sec.cursor as int] as int].path@
            } else {
                r is None
            }
        },
        _ => r is None,
    }
}

/// The fetch the startup state calls for: the file under the focused
/// pane's cursor when it is a plain file, nothing on a directory, an
/// untracked file, an empty pane or a non-tree focus.
pub open spec fn first_preview_ok(a: App, r: Option<DiffRequest>) -> bool {
    match a.focus {
        Focus::Unstaged | Focus::Staged => {
            let pane = if a.focus == Focus::Unstaged {
                TreePane::Unstaged
            } else {
                TreePane::Staged
            };
            let sec = a.spec_tree(pane);
            if sec.cursor < sec.visible@.len() && sec.visible@[sec.cursor as int]
                < sec.all_nodes@.len() {
                let node = sec.all_nodes@[sec.visible@[sec.cursor as int] as int];
                if !node.is_dir && !(node.staged == '?' && node.unstaged == '?') {
                    r matches Some(req) && req.path@ == node.path@ && req.pane == pane
                } else {
                    r is None
                }
            } else {
                r is None
            }
        },
        _ => r is None,
    }
}

impl App {
    /// Shows a transient status message.
    pub fn set_status_message(&mut self, m: String)
        requires
            old(self).wf(),
        ensures
            final(self).wf(),
            *final(self) == (App { status_message: Some(m), ..*old(self) }),
    {
        self.status_message = Some(m);
    }

    /// Shows a transient error message.
    pub fn set_error_message(&mut self, m: String)
        requires
            old(self).wf(),
        ensures
            final(self).wf(),
            *final(self) == (App { error_message: Some(m), ..*old(self) }),
    {
        self.error_message = Some(m);
    }

    /// Builds the record/un-record request for the row under the
    /// cursor: a whole subtree for a directory, the single file
    /// otherwise, together with the status line to show on success.
    pub fn tree_enter(&self) -> (r: Option<StageRequest>)
        ensures
            stage_request_ok(*self, r),
    {
        let pane = match self.focused_pane() {
            Some(p) => p,
            None => {
                return None;
            },
        };
        let (found, is_dir, path) = {
            let section = self.tree(pane);
            match section.current_node() {
                Some(n) => (true, n.is_dir, n.path.clone()),
                None => (false, false, String::new()),
            }
        };
        if !found {
            return None;
        }
        let unstage = pane.is_staged();
        let mut label = if is_dir {
            if unstage {
                String::from_str("Unstaged directory: ")
            } else {
                String::from_str("Staged directory: ")
            }
        } else {
            if unstage {
                String::from_str("Unstaged: ")
            } else {
                String::from_str("Staged: ")
            }
        };
        label.append(path.as_str());
        let paths = if is_dir {
            self.tree(pane).files_under_dir(path.as_str())
        } else {
            let mut v: Vec<String> = Vec::new();
            v.push(path);
            proof {
                assert(v.deep_view() =~= seq![v@[0]@]);
            }
            v
        };
        Some(StageRequest { paths, unstage, is_dir, label })
    }

    /// The path to copy for the row under the cursor, if any.
    pub fn tree_copy_path_to_clipboard(&self) -> (r: Option<String>)
        ensures
            copy_request_ok(*self, r),
    {
        let pane = match self.focused_pane() {
            Some(p) => p,
            None => {
                return None;
            },
        };
        let section = self.tree(pane);
        match section.current_node() {
            Some(n) => Some(n.path.clone()),
            None => None,
        }
    }

    /// Rebuilds both panes after a record or un-record action, moves
    /// the focus away from a pane that became empty, and reloads the
    /// preview for whatever the cursor now rests on.
    pub fn refresh_after_tree_op(&mut self, files: &Vec<GitFile>) -> (r: Option<DiffRequest>)
        requires
            old(self).wf(),
        ensures
            final(self).wf(),
            forall|m: crate::tree::NodeModel|
                #[trigger] crate::tree::contains_model(final(self).unstaged.all_nodes@, m)
                    == crate::tree::built_member(
                    pane_records(files@, false),
                    old(self).unstaged.all_nodes@,
                    m,
                ),
            forall|m: crate::tree::NodeModel|
                #[trigger] crate::tree::contains_model(final(self).staged.all_nodes@, m)
                    == crate::tree::built_member(
                    pane_records(files@, true),
                    old(self).staged.all_nodes@,
                    m,
                ),
            match final(self).focus {
                Focus::Unstaged => preview_outcome(
                    *old(self),
                    *final(self),
                    final(self).unstaged,
                    TreePane::Unstaged,
                    r,
                ),
                Focus::Staged => preview_outcome(
                    *old(self),
                    *final(self),
                    final(self).staged,
                    TreePane::Staged,
                    r,
                ),
                _ => diff_fields_eq(*old(self), *final(self)) && r is None,
            },
            (old(self).focus == Focus::Unstaged && final(self).unstaged.visible@.len() == 0
                && final(self).staged.visible@.len() > 0) ==> final(self).focus == Focus::Staged,
            (old(self).focus == Focus::Staged && final(self).staged.visible@.len() == 0
                && final(self).unstaged.visible@.len() > 0) ==> final(self).focus
                == Focus::Unstaged,
    {
        self.refresh_trees(files);
        if self.focus == Focus::Unstaged && self.unstaged.is_empty() && !self.staged.is_empty() {
            self.focus = Focus::Staged;
        } else if self.focus == Focus::Staged && self.staged.is_empty()
            && !self.unstaged.is_empty() {
            self.focus = Focus::Unstaged;
        }
        self.tree_load_preview()
    }

    /// Re-fetches nothing itself: applies a fresh status listing after
    /// a global refresh. The focus stays unless its pane became empty;
    /// a tree focus reloads the preview; a diff focus keeps the current
    /// file, shows the untracked placeholder when the file is now
    /// untracked in its pane, asks for a reload otherwise, and clears
    /// the diff when no file is current.
    pub fn refresh_latest_state(&mut self, files: &Vec<GitFile>) -> (r: Effect)
        requires
            old(self).wf(),
        ensures
            final(self).wf(),
            final(self).status_message matches Some(m) && m@ == "Refreshed latest state"@,
            forall|m: crate::tree::NodeModel|
                #[trigger] crate::tree::contains_model(final(self).unstaged.all_nodes@, m)
                    == crate::tree::built_member(
                    pane_records(files@, false),
                    old(self).unstaged.all_nodes@,
                    m,
                ),
            forall|m: crate::tree::NodeModel|
                #[trigger] crate::tree::contains_model(final(self).staged.all_nodes@, m)
                    == crate::tree::built_member(
                    pane_records(files@, true),
                    old(self).staged.all_nodes@,
                    m,
                ),
            (old(self).focus == Focus::Unstaged && final(self).unstaged.visible@.len() == 0
                && final(self).staged.visible@.len() > 0) ==> final(self).focus == Focus::Staged,
            (old(self).focus == Focus::Staged && final(self).staged.visible@.len() == 0
                && final(self).unstaged.visible@.len() > 0) ==> final(self).focus
                == Focus::Unstaged,
            (old(self).focus == Focus::Unstaged || old(self).focus == Focus::Staged) ==> ({
                &&& (r is Idle || r is FetchDiff)
                &&& match final(self).focus {
                    Focus::Unstaged => preview_outcome(
                        *old(self),
                        *final(self),
                        final(self).unstaged,
                        TreePane::Unstaged,
                        eff_fetch(r),
                    ),
                    Focus::Staged => preview_outcome(
                        *old(self),
                        *final(self),
                        final(self).staged,
                        TreePane::Staged,
                        eff_fetch(r),
                    ),
                    _ => false,
                }
            }),
            (old(self).focus == Focus::DiffView || old(self).focus == Focus::InlineSelect) ==> ({
                &&& final(self).focus == old(self).focus
                &&& (old(self).current_file is None || old(self).diff_origin is None)
                    ==> cleared_fields(*final(self)) && r is Idle
                &&& (old(self).current_file is Some && old(self).diff_origin is Some) ==> ({
                    let path = old(self).current_file.unwrap()@;
                    let pane = old(self).diff_origin.unwrap();
                    if has_untracked_node(final(self).spec_tree(pane), path) {
                        untracked_fields(*final(self), path, pane) && r is Idle
                    } else {
                        diff_fields_eq(*old(self), *final(self)) && r is ReloadDiff
                    }
                })
            }),
    {
        self.refresh_trees(files);
        if self.focus == Focus::Unstaged && self.unstaged.is_empty() && !self.staged.is_empty() {
            self.focus = Focus::Staged;
        } else if self.focus == Focus::Staged && self.staged.is_empty()
            && !self.unstaged.is_empty() {
            self.focus = Focus::Unstaged;
        }
        let eff = match self.focus {
            Focus::Unstaged | Focus::Staged => {
                match self.tree_load_preview() {
                    Some(req) => Effect::FetchDiff(req),
                    None => Effect::Idle,
                }
            },
            Focus::DiffView | Focus::InlineSelect => {
                let current = match (&self.current_file, self.diff_origin) {
                    (Some(p), Some(pane)) => Some((p.clone(), pane)),
                    _ => None,
                };
                match current {
                    Some((path, pane)) => {
                        if self.has_untracked_file_in_pane(pane, path.as_str()) {
                            self.set_untracked_diff_message(path, pane);
                            Effect::Idle
                        } else {
                            Effect::ReloadDiff
                        }
                    },
                    None => {
                        self.clear_diff();
                        Effect::Idle
                    },
                }
            },
        };
        self.set_status_message(String::from_str("Refreshed latest state"));
        eff
    }

    /// Loads the first preview after startup: when the focused pane's
    /// cursor rests on a plain file, its diff is fetched.
    pub fn auto_load_first_diff(&self) -> (r: Option<DiffRequest>)
        ensures
            first_preview_ok(*self, r),
    {
        let pane = match self.focused_pane() {
            Some(p) => p,
            None => {
                return None;
            },
        };
        let section = self.tree(pane);
        match section.current_node() {
            Some(n) => {
                if !n.is_dir && !(n.staged == '?' && n.unstaged == '?') {
                    Some(DiffRequest { path: n.path.clone(), pane })
                } else {
                    None
                }
            },
            None => None,
        }
    }

    /// Applies the startup status listing: builds both panes, starts
    /// in the recorded pane when only it has rows, and picks the first
    /// preview to load.
    pub fn initialize(&mut self, files: &Vec<GitFile>) -> (r: Option<DiffRequest>)
        requires
            old(self).wf(),
        ensures
            final(self).wf(),
            forall|m: crate::tree::NodeModel|
                #[trigger] crate::tree::contains_model(final(self).unstaged.all_nodes@, m)
                    == crate::tree::built_member(
                    pane_records(files@, false),
                    old(self).unstaged.all_nodes@,
                    m,
                ),
            forall|m: crate::tree::NodeModel|
                #[trigger] crate::tree::contains_model(final(self).staged.all_nodes@, m)
                    == crate::tree::built_member(
                    pane_records(files@, true),
                    old(self).staged.all_nodes@,
                    m,
                ),
            (final(self).unstaged.visible@.len() == 0 && final(self).staged.visible@.len() > 0)
                ==> final(self).focus == Focus::Staged,
            !(final(self).unstaged.visible@.len() == 0 && final(self).staged.visible@.len() > 0)
                ==> final(self).focus == old(self).focus,
            diff_fields_eq(*old(self), *final(self)),
            first_preview_ok(*final(self), r),
    {
        self.refresh_trees(files);
        if self.unstaged.is_empty() && !self.staged.is_empty() {
            self.focus = Focus::Staged;
        }
        self.auto_load_first_diff()
    }
}

/// The smaller of a wished position and the last line index (zero on an
/// empty text).
pub open spec fn spec_min_sat(wish: int, line_count: int) -> int {
    let cap = if line_count == 0 {
        0
    } else {
        line_count - 1
    };
    if wish < cap {
        wish
    } else {
        cap
    }
}

/// The number of hunk-header lines among the first `i` lines.
pub open spec fn headers_before(lines: Seq<Seq<char>>, i: int) -> int
    decreases i,
{
    if i <= 0 {
        0
    } else {
        headers_before(lines, i - 1) + if starts_with(lines[i - 1], "@@"@) {
            1int
        } else {
            0int
        }
    }
}

/// The index of the line carrying the `k`-th hunk header, or -1.
pub open spec fn hunk_line_index(lines: Seq<Seq<char>>, k: int) -> int
    decreases lines.len(),
{
    if lines.len() == 0 {
        -1
    } else if starts_with(lines[0], "@@"@) {
        if k == 0 {
            0
        } else {
            let r = hunk_line_index(lines.drop_first(), k - 1);
            if r < 0 {
                -1
            } else {
                r + 1
            }
        }
    } else {
        let r = hunk_line_index(lines.drop_first(), k);
        if r < 0 {
            -1
        } else {
            r + 1
        }
    }
}

proof fn lemma_headers_nonneg(lines: Seq<Seq<char>>, i: int)
    ensures
        headers_before(lines, i) >= 0,
    decreases i,
{
    if i > 0 {
        lemma_headers_nonneg(lines, i - 1);
    }
}

proof fn lemma_headers_shift(lines: Seq<Seq<char>>, j: int)
    requires
        0 <= j < lines.len(),
    ensures
        headers_before(lines, j + 1) == (if starts_with(lines[0], "@@"@) {
            1int
        } else {
            0int
        }) + headers_before(lines.drop_first(), j),
    decreases j,
{
    let t = lines.drop_first();
    if j > 0 {
        lemma_headers_shift(lines, j - 1);
        assert(t[j - 1] == lines[j]);
        assert(headers_before(t, j) == headers_before(t, j - 1) + (if starts_with(
            t[j - 1],
            "@@"@,
        ) {
            1int
        } else {
            0int
        }));
        assert(headers_before(lines, j + 1) == headers_before(lines, j) + (if starts_with(
            lines[j],
            "@@"@,
        ) {
            1int
        } else {
            0int
        }));
    } else {
        assert(headers_before(t, 0) == 0);
        assert(headers_before(lines, 1) == headers_before(lines, 0) + (if starts_with(
            lines[0],
            "@@"@,
        ) {
            1int
        } else {
            0int
        }));
    }
}

proof fn lemma_hunk_line_at(lines: Seq<Seq<char>>, i: int)
    requires
        0 <= i < lines.len(),
        starts_with(lines[i], "@@"@),
    ensures
        hunk_line_index(lines, headers_before(lines, i)) == i,
    decreases i,
{
    if i == 0 {
    } else {
        let t = lines.drop_first();
        assert(t[i - 1] == lines[i]);
        lemma_hunk_line_at(t, i - 1);
        lemma_headers_shift(lines, i - 1);
        lemma_headers_nonneg(t, i - 1);
        let k = headers_before(lines, i);
        if starts_with(lines[0], "@@"@) {
            assert(k == 1 + headers_before(t, i - 1));
            assert(k != 0);
            assert(hunk_line_index(t, k - 1) == i - 1);
        } else {
            assert(k == headers_before(t, i - 1));
            assert(hunk_line_index(t, k) == i - 1);
        }
    }
}

proof fn lemma_hunk_line_none(lines: Seq<Seq<char>>, k: int)
    requires
        k >= headers_before(lines, lines.len() as int),
    ensures
        hunk_line_index(lines, k) == -1,
    decreases lines.len(),
{
    if lines.len() > 0 {
        let t = lines.drop_first();
        lemma_headers_shift(lines, lines.len() - 1);
        lemma_headers_nonneg(t, t.len() as int);
        if starts_with(lines[0], "@@"@) {
            assert(headers_before(lines, lines.len() as int) == 1 + headers_before(
                t,
                t.len() as int,
            ));
            assert(k >= 1);
            lemma_hunk_line_none(t, k - 1);
        } else {
            lemma_hunk_line_none(t, k);
        }
    }
}

/// The scroll position that keeps `cursor` inside the viewport
/// `[scroll, scroll + height)`.
pub open spec fn visible_scroll(scroll: int, cursor: int, height: int) -> int {
    if cursor < scroll {
        cursor
    } else if cursor - scroll >= height {
        cursor - height + 1
    } else {
        scroll
    }
}

/// The smallest selectable line index at or after `from`, or -1.
pub open spec fn first_sel_in(infos: Seq<DisplayLineInfo>, from: int) -> int
    decreases infos.len() - from,
{
    if from >= infos.len() || from < 0 {
        -1
    } else if infos[from].is_selectable {
        from
    } else {
        first_sel_in(infos, from + 1)
    }
}

/// The largest selectable line index strictly before `from`, or -1.
pub open spec fn last_sel_before(infos: Seq<DisplayLineInfo>, from: int) -> int
    decreases from,
{
    if from <= 0 {
        -1
    } else if from - 1 >= infos.len() {
        last_sel_before(infos, from - 1)
    } else if infos[from - 1].is_selectable {
        from - 1
    } else {
        last_sel_before(infos, from - 1)
    }
}

/// Half of the viewport, and at least one row.
pub open spec fn half_page_of(height: int) -> int {
    if height / 2 >= 1 {
        height / 2
    } else {
        1
    }
}

/// The state after scrolling to the `hunk_idx`-th hunk header of the
/// displayed text: in line selection the raw text is scanned and the
/// line cursor follows; otherwise the display text is scanned and only
/// the scroll moves. Without such a header nothing changes.
pub open spec fn spec_scroll_to_hunk(o: App, hunk_idx: int) -> App {
    let content = if o.focus == Focus::InlineSelect {
        o.raw_diff@
    } else {
        o.display_diff@
    };
    let li = hunk_line_index(spec_lines(content), hunk_idx);
    if li >= 0 {
        if o.focus == Focus::InlineSelect {
            App { diff_cursor: li as usize, diff_scroll: li as usize, ..o }
        } else {
            App { diff_scroll: li as usize, ..o }
        }
    } else {
        o
    }
}

/// The state after a jump to the next hunk: the hunk cursor advances
/// when a next hunk exists and the view scrolls to it; with no hunks
/// at all nothing changes.
pub open spec fn spec_jump_next(o: App) -> App {
    if o.file_diff.hunks@.len() == 0 {
        o
    } else {
        let c = if o.hunk_cursor + 1 < o.file_diff.hunks@.len() {
            o.hunk_cursor + 1
        } else {
            o.hunk_cursor as int
        };
        spec_scroll_to_hunk(App { hunk_cursor: c as usize, ..o }, c)
    }
}

/// The state after a jump to the previous hunk.
pub open spec fn spec_jump_prev(o: App) -> App {
    if o.file_diff.hunks@.len() == 0 {
        o
    } else {
        let c = if o.hunk_cursor > 0 {
            o.hunk_cursor - 1
        } else {
            0int
        };
        spec_scroll_to_hunk(App { hunk_cursor: c as usize, ..o }, c)
    }
}

impl App {
    /// Scrolls to the line of the given hunk's header, re-scanning the
    /// displayed text (the raw text in line selection, the display text
    /// otherwise); in line selection the line cursor follows. Without
    /// such a header nothing changes.
    pub fn scroll_to_hunk(&mut self, hunk_idx: usize)
        requires
            old(self).wf(),
        ensures
            final(self).wf(),
            *final(self) == spec_scroll_to_hunk(*old(self), hunk_idx as int),
    {
        let inline = self.focus == Focus::InlineSelect;
        let lines = if inline {
            split_lines(self.raw_diff.as_str())
        } else {
            split_lines(self.display_diff.as_str())
        };
        let ghost all = lines.deep_view();
        let n = lines.len();
        let mut hunk_count: usize = 0;
        let mut line_no: usize = 0;
        while line_no < n
            invariant
                line_no <= n,
                n == all.len(),
                n == lines@.len(),
                all == lines.deep_view(),
                inline == (old(self).focus == Focus::InlineSelect),
                *self == *old(self),
                old(self).wf(),
                all == spec_lines(
                    if inline {
                        old(self).raw_diff@
                    } else {
                        old(self).display_diff@
                    },
                ),
                hunk_count == headers_before(all, line_no as int),
                hunk_count <= hunk_idx,
            decreases n - line_no,
        {
            proof {
                assert(lines@[line_no as int]@ == all[line_no as int]);
            }
            let line = &lines[line_no];
            if str_starts_with(line.as_str(), "@@") {
                if hunk_count == hunk_idx {
                    proof {
                        lemma_hunk_line_at(all, line_no as int);
                    }
                    if inline {
                        self.diff_cursor = line_no;
                        self.diff_scroll = line_no;
                    } else {
                        self.diff_scroll = line_no;
                    }
                    return ;
                }
                hunk_count += 1;
            }
            line_no += 1;
        }
        proof {
            lemma_hunk_line_none(all, hunk_idx as int);
        }
    }

    /// Advances the hunk cursor to the next hunk, when there is one,
    /// and scrolls to it.
    pub fn jump_next_hunk(&mut self)
        requires
            old(self).wf(),
        ensures
            final(self).wf(),
            *final(self) == spec_jump_next(*old(self)),
    {
        let count = self.file_diff.hunks.len();
        if count == 0 {
            return ;
        }
        if self.hunk_cursor < count - 1 {
            self.hunk_cursor = self.hunk_cursor + 1;
        }
        let h = self.hunk_cursor;
        self.scroll_to_hunk(h);
    }

    /// Moves the hunk cursor to the previous hunk, when there is one,
    /// and scrolls to it.
    pub fn jump_prev_hunk(&mut self)
        requires
            old(self).wf(),
        ensures
            final(self).wf(),
            *final(self) == spec_jump_prev(*old(self)),
    {
        if self.file_diff.hunks.len() == 0 {
            return ;
        }
        if self.hunk_cursor > 0 {
            self.hunk_cursor = self.hunk_cursor - 1;
        }
        let h = self.hunk_cursor;
        self.scroll_to_hunk(h);
    }

    /// Keeps the hunk cursor on the hunk the line cursor is in.
    pub fn sync_hunk_cursor(&mut self)
        requires
            old(self).wf(),
        ensures
            final(self).wf(),
            ({
                let o = *old(self);
                if o.diff_cursor < o.line_infos@.len() && o.line_infos@[o.diff_cursor as int].hunk_idx is Some {
                    *final(self) == (App {
                        hunk_cursor: o.line_infos@[o.diff_cursor as int].hunk_idx.unwrap(),
                        ..o
                    })
                } else {
                    *final(self) == o
                }
            }),
    {
        if self.diff_cursor < self.line_infos.len() {
            match self.line_infos[self.diff_cursor].hunk_idx {
                Some(h) => {
                    self.hunk_cursor = h;
                },
                None => {},
            }
        }
    }

    /// Scrolls just enough to bring the line cursor into the viewport.
    pub fn ensure_cursor_visible(&mut self)
        requires
            old(self).wf(),
        ensures
            final(self).wf(),
            *final(self) == (App {
                diff_scroll: visible_scroll(
                    old(self).diff_scroll as int,
                    old(self).diff_cursor as int,
                    old(self).diff_pane_height as int,
                ) as usize,
                ..*old(self)
            }),
    {
        if self.diff_cursor < self.diff_scroll {
            self.diff_scroll = self.diff_cursor;
        } else if self.diff_cursor - self.diff_scroll >= self.diff_pane_height {
            self.diff_scroll = self.diff_cursor - self.diff_pane_height + 1;
        }
    }

    /// Moves the line cursor to the next selectable line at or after
    /// `from`, wrapping to search backward when none follows; when no
    /// selectable line exists at all, the cursor stays at `from`
    /// clamped to the text. The scroll follows the cursor.
    pub fn move_to_next_selectable(&mut self, from: usize)
        requires
            old(self).wf(),
        ensures
            final(self).wf(),
            ({
                let o = *old(self);
                let f = first_sel_in(o.line_infos@, from as int);
                let b = last_sel_before(o.line_infos@, from as int);
                if f >= 0 {
                    *final(self) == (App {
                        diff_cursor: f as usize,
                        diff_scroll: visible_scroll(
                            o.diff_scroll as int,
                            f,
                            o.diff_pane_height as int,
                        ) as usize,
                        ..o
                    })
                } else if b >= 0 {
                    *final(self) == (App {
                        diff_cursor: b as usize,
                        diff_scroll: visible_scroll(
                            o.diff_scroll as int,
                            b,
                            o.diff_pane_height as int,
                        ) as usize,
                        ..o
                    })
                } else {
                    *final(self) == (App {
                        diff_cursor: (if o.line_infos@.len() == 0 {
                            0int
                        } else if from >= o.line_infos@.len() {
                            o.line_infos@.len() - 1
                        } else {
                            from as int
                        }) as usize,
                        ..o
                    })
                }
            }),
    {
        let line_count = self.line_infos.len();
        let mut i: usize = from;
        while i < line_count
            invariant
                from <= i,
                line_count == self.line_infos@.len(),
                *self == *old(self),
                old(self).wf(),
                first_sel_in(self.line_infos@, from as int) == first_sel_in(
                    self.line_infos@,
                    i as int,
                ),
            decreases line_count - i,
        {
            if self.line_infos[i].is_selectable {
                self.diff_cursor = i;
                self.ensure_cursor_visible();
                return ;
            }
            i += 1;
        }
        let mut j: usize = if from < line_count {
            from
        } else {
            line_count
        };
        proof {
            if from >= line_count {
                lemma_last_sel_high(self.line_infos@, from as int);
            }
        }
        while j > 0
            invariant
                j <= line_count,
                line_count == self.line_infos@.len(),
                *self == *old(self),
                old(self).wf(),
                first_sel_in(self.line_infos@, from as int) == -1,
                last_sel_before(self.line_infos@, from as int) == last_sel_before(
                    self.line_infos@,
                    j as int,
                ),
            decreases j,
    {
            if self.line_infos[j - 1].is_selectable {
                self.diff_cursor = j - 1;
                self.ensure_cursor_visible();
                return ;
            }
            j -= 1;
        }
        self.diff_cursor = if line_count == 0 {
            0
        } else if from >= line_count {
            line_count - 1
        } else {
            from
        };
    }
}

/// One decoded input event, already mapped from the terminal's raw
/// events by the shell.
#[derive(Debug, Clone, Copy, PartialEq, Eq, Structural)]
pub enum KeyInput {
    Quit,
    Down,
    Up,
    Right,
    Left,
    Enter,
    Copy,
    Help,
    Refresh,
    NextHunk,
    PrevHunk,
    HalfPageDown,
    HalfPageUp,
    Top,
    Bottom,
    SelectMode,
    Other,
}

/// The scroll after moving the cursor down: pushed just far enough to
/// keep the cursor on the last viewport row.
pub open spec fn scroll_down_adj(scroll: int, cursor: int, height: int) -> int {
    if cursor - scroll >= height {
        cursor - height + 1
    } else {
        scroll
    }
}

/// The scroll after moving the cursor up: pulled up to the cursor.
pub open spec fn scroll_up_adj(scroll: int, cursor: int) -> int {
    if cursor < scroll {
        cursor
    } else {
        scroll
    }
}

/// The hunk cursor implied by line `c`: the line's hunk when it has
/// one, the previous value otherwise.
pub open spec fn sync_hunk(infos: Seq<DisplayLineInfo>, c: int, old_hunk: usize) -> usize {
    if 0 <= c < infos.len() && infos[c].hunk_idx is Some {
        infos[c].hunk_idx.unwrap()
    } else {
        old_hunk
    }
}

/// The last line index, or zero for an empty text.
pub open spec fn last_line(lc: int) -> int {
    if lc == 0 {
        0
    } else {
        lc - 1
    }
}

/// What applying the line under the cursor does: a non-body line is a
/// reported no-op; a body line of a well-addressed hunk yields the
/// forward patch for that single line when the file came from the
/// worktree pane, the reverse patch when it came from the recorded
/// pane; anything out of range changes nothing.
pub open spec fn apply_line_ok(o: App, post: App, r: Effect) -> bool {
    if o.diff_cursor < o.line_infos@.len() {
        let info = o.line_infos@[o.diff_cursor as int];
        if !info.is_selectable {
            (post.error_message matches Some(m) && m@
                == "Only +/- lines can be applied"@) && post == (App {
                error_message: post.error_message,
                ..o
            }) && r is Idle
        } else if info.hunk_idx is Some && info.line_in_hunk is Some
            && o.current_file is Some && o.diff_origin is Some
            && info.hunk_idx.unwrap() < o.file_diff.hunks@.len() {
            let h = info.hunk_idx.unwrap();
            let l = info.line_in_hunk.unwrap();
            let f = o.current_file.unwrap();
            let pane = o.diff_origin.unwrap();
            let hunk = o.file_diff.hunks@[h as int];
            let sel = crate::patch::sel_of(Set::<usize>::empty().insert(l));
            post == o && (r matches Effect::ApplyPatch(req) && req.prev_cursor
                == o.diff_cursor && req.patch@ == (if pane is Staged {
                crate::patch::patch_text(
                    f@,
                    hunk.new_start as nat,
                    crate::patch::old_side_count(
                        crate::patch::reverse_body(hunk.lines@, sel),
                    ),
                    hunk.new_start as nat,
                    crate::patch::new_side_count(
                        crate::patch::reverse_body(hunk.lines@, sel),
                    ),
                    crate::patch::reverse_body(hunk.lines@, sel),
                )
            } else {
                crate::patch::patch_text(
                    f@,
                    hunk.old_start as nat,
                    crate::patch::old_side_count(
                        crate::patch::forward_body(hunk.lines@, sel),
                    ),
                    hunk.new_start as nat,
                    crate::patch::new_side_count(
                        crate::patch::forward_body(hunk.lines@, sel),
                    ),
                    crate::patch::forward_body(hunk.lines@, sel),
                )
            }))
        } else {
            post == o && r is Idle
        }
    } else {
        post == o && r is Idle
    }
}
/// What one tree-pane key does, per key, and the effect it requests.
pub open spec fn tree_key_ok(key: KeyInput, o: App, post: App, r: Effect) -> bool {
    &&& (key is Quit ==> post == (App { should_quit: true, ..o }) && r is Idle)
    &&& (key is Help ==> (post.status_message matches Some(m) && m@
        == "j/k:move  l:open  h:back  Enter:stage/unstage  c:copy-path  r:refresh  v:line-select  n/p:hunk  q:quit"@))
    &&& ((key is Down || key is Up) ==> ({
        let mid = if key is Down {
            spec_move_down(o)
        } else {
            spec_move_up(o)
        };
        &&& post.unstaged == mid.unstaged
        &&& post.staged == mid.staged
        &&& post.focus == mid.focus
        &&& (r is Idle || r is FetchDiff)
        &&& match mid.focus {
            Focus::Unstaged => preview_outcome(
                mid,
                post,
                mid.unstaged,
                TreePane::Unstaged,
                eff_fetch(r),
            ),
            Focus::Staged => preview_outcome(mid, post, mid.staged, TreePane::Staged, eff_fetch(r)),
            _ => post == mid && r is Idle,
        }
    }))
    &&& (key is Right ==> action_right_ok(o, post, eff_fetch(r)) && (r is Idle || r
        is FetchDiff))
    &&& (key is Left ==> action_left_ok(o, post) && r is Idle)
    &&& (key is Enter ==> post == o && stage_request_ok(o, eff_stage(r)) && (r is Idle || r
        is Stage))
    &&& (key is Copy ==> post == o && copy_request_ok(o, eff_copy(r)) && (r is Idle || r
        is CopyPath))
    &&& (key is Other ==> post == o && r is Idle)
}

/// What one diff-view key does, per key.
pub open spec fn diff_key_ok(key: KeyInput, o: App, post: App) -> bool {
    let lc = spec_lines(o.display_diff@).len() as int;
    match key {
        KeyInput::Quit => post == (App { should_quit: true, ..o }),
        KeyInput::Down => post == (App {
            diff_scroll: (if o.diff_scroll + 1 < lc {
                o.diff_scroll + 1
            } else {
                o.diff_scroll as int
            }) as usize,
            ..o
        }),
        KeyInput::Up => post == (App {
            diff_scroll: (if o.diff_scroll > 0 {
                o.diff_scroll - 1
            } else {
                0int
            }) as usize,
            ..o
        }),
        KeyInput::HalfPageDown => post == (App {
            diff_scroll: (if o.diff_scroll + half_page_of(o.diff_pane_height as int)
                < last_line(lc) {
                o.diff_scroll + half_page_of(o.diff_pane_height as int)
            } else {
                last_line(lc)
            }) as usize,
            ..o
        }),
        KeyInput::HalfPageUp => post == (App {
            diff_scroll: (if o.diff_scroll > half_page_of(o.diff_pane_height as int) {
                o.diff_scroll - half_page_of(o.diff_pane_height as int)
            } else {
                0int
            }) as usize,
            ..o
        }),
        KeyInput::Top => post == (App { diff_scroll: 0, ..o }),
        KeyInput::Bottom => post == (App {
            diff_scroll: last_line(lc) as usize,
            ..o
        }),
        KeyInput::Left => post == (App {
            focus: match o.diff_origin {
                Some(p) => pane_focus(p),
                None => Focus::Unstaged,
            },
            ..o
        }),
        KeyInput::SelectMode => {
            if o.tool is Difftastic {
                post.error_message matches Some(m) && m@
                    == "Line selection unavailable with difftastic"@ && post
                    == (App { error_message: post.error_message, ..o })
            } else if o.file_diff.hunks@.len() == 0 {
                post.error_message matches Some(m) && m@
                    == "No hunks to select lines from"@ && post == (App {
                    error_message: post.error_message,
                    ..o
                })
            } else {
                post.status_message matches Some(m) && m@
                    == "Inline select: j/k move  Enter apply  v/h exit"@
                    && post == (App {
                    focus: Focus::InlineSelect,
                    diff_cursor: o.diff_scroll,
                    status_message: post.status_message,
                    ..o
                })
            }
        },
        KeyInput::NextHunk => post == spec_jump_next(o),
        KeyInput::PrevHunk => post == spec_jump_prev(o),
        _ => post == o,
    }
}

/// What one line-selection key does, per key, and the effect it
/// requests.
pub open spec fn inline_key_ok(key: KeyInput, o: App, post: App, r: Effect) -> bool {
    let lc = spec_lines(o.raw_diff@).len() as int;
    match key {
        KeyInput::Quit => post == (App { should_quit: true, ..o }) && r
            is Idle,
        KeyInput::Down => {
            &&& (if o.diff_cursor + 1 < lc {
                let c = o.diff_cursor + 1;
                post == (App {
                    diff_cursor: c as usize,
                    hunk_cursor: sync_hunk(o.line_infos@, c, o.hunk_cursor),
                    diff_scroll: scroll_down_adj(
                        o.diff_scroll as int,
                        c,
                        o.diff_pane_height as int,
                    ) as usize,
                    ..o
                })
            } else {
                post == o
            })
            &&& r is Idle
        },
        KeyInput::Up => {
            &&& (if o.diff_cursor > 0 {
                let c = o.diff_cursor - 1;
                post == (App {
                    diff_cursor: c as usize,
                    hunk_cursor: sync_hunk(o.line_infos@, c, o.hunk_cursor),
                    diff_scroll: scroll_up_adj(o.diff_scroll as int, c) as usize,
                    ..o
                })
            } else {
                post == o
            })
            &&& r is Idle
        },
        KeyInput::HalfPageDown => {
            let c = if o.diff_cursor + half_page_of(o.diff_pane_height as int)
                < last_line(lc) {
                o.diff_cursor + half_page_of(o.diff_pane_height as int)
            } else {
                last_line(lc)
            };
            post == (App {
                diff_cursor: c as usize,
                hunk_cursor: sync_hunk(o.line_infos@, c, o.hunk_cursor),
                diff_scroll: scroll_down_adj(
                    o.diff_scroll as int,
                    c,
                    o.diff_pane_height as int,
                ) as usize,
                ..o
            }) && r is Idle
        },
        KeyInput::HalfPageUp => {
            let c = if o.diff_cursor > half_page_of(o.diff_pane_height as int) {
                o.diff_cursor - half_page_of(o.diff_pane_height as int)
            } else {
                0int
            };
            post == (App {
                diff_cursor: c as usize,
                hunk_cursor: sync_hunk(o.line_infos@, c, o.hunk_cursor),
                diff_scroll: scroll_up_adj(o.diff_scroll as int, c) as usize,
                ..o
            }) && r is Idle
        },
        KeyInput::SelectMode => post == (App { focus: Focus::DiffView, ..o })
            && r is Idle,
        KeyInput::Left => post == (App {
            focus: match o.diff_origin {
                Some(p) => pane_focus(p),
                None => Focus::Unstaged,
            },
            ..o
        }) && r is Idle,
        KeyInput::NextHunk => post == spec_jump_next(o) && r is Idle,
        KeyInput::PrevHunk => post == spec_jump_prev(o) && r is Idle,
        KeyInput::Enter => apply_line_ok(o, post, r),
        _ => post == o && r is Idle,
    }
}

impl App {
    /// Handles one key in the diff view: scrolling by line, half page
    /// or to either end, hunk jumps, returning to the originating pane,
    /// and entering line selection (refused when the file has no hunks
    /// or the renderer exposes no line structure).
    pub fn handle_diff_key(&mut self, key: KeyInput)
        requires
            old(self).wf(),
        ensures
            final(self).wf(),
            diff_key_ok(key, *old(self), *final(self)),
    {
        let line_count = split_lines(self.display_diff.as_str()).len();
        let half_page = {
            let h = self.diff_pane_height / 2;
            if h >= 1 {
                h
            } else {
                1
            }
        };
        let cap = if line_count == 0 {
            0
        } else {
            line_count - 1
        };
        match key {
            KeyInput::Quit => {
                self.should_quit = true;
            },
            KeyInput::Down => {
                if line_count > 0 && self.diff_scroll < line_count - 1 {
                    self.diff_scroll = self.diff_scroll + 1;
                }
            },
            KeyInput::Up => {
                if self.diff_scroll > 0 {
                    self.diff_scroll = self.diff_scroll - 1;
                }
            },
            KeyInput::HalfPageDown => {
                self.diff_scroll = if self.diff_scroll < cap && cap - self.diff_scroll > half_page {
                    self.diff_scroll + half_page
                } else {
                    cap
                };
            },
            KeyInput::HalfPageUp => {
                self.diff_scroll = if self.diff_scroll > half_page {
                    self.diff_scroll - half_page
                } else {
                    0
                };
            },
            KeyInput::Top => {
                self.diff_scroll = 0;
            },
            KeyInput::Bottom => {
                self.diff_scroll = cap;
            },
            KeyInput::NextHunk => {
                self.jump_next_hunk();
            },
            KeyInput::PrevHunk => {
                self.jump_prev_hunk();
            },
            KeyInput::Left => {
                self.focus = match self.diff_origin {
                    Some(p) => p.to_focus(),
                    None => Focus::Unstaged,
                };
            },
            KeyInput::SelectMode => {
                if self.tool.supports_line_ops() {
                    if self.file_diff.hunks.len() == 0 {
                        self.error_message = Some(
                            String::from_str("No hunks to select lines from"),
                        );
                    } else {
                        self.focus = Focus::InlineSelect;
                        self.diff_cursor = self.diff_scroll;
                        self.status_message = Some(
                            String::from_str("Inline select: j/k move  Enter apply  v/h exit"),
                        );
                    }
                } else {
                    self.error_message = Some(
                        String::from_str("Line selection unavailable with difftastic"),
                    );
                }
            },
            _ => {},
        }
    }

    /// Handles one key in line selection: the line cursor moves (the
    /// scroll following it), hunks can be jumped to, the mode can be
    /// left, and the line under the cursor can be applied.
    #[verifier::rlimit(50)]
    pub fn handle_inline_select_key(&mut self, key: KeyInput) -> (r: Effect)
        requires
            old(self).wf(),
        ensures
            final(self).wf(),
            inline_key_ok(key, *old(self), *final(self), r),
    {
        let line_count = split_lines(self.raw_diff.as_str()).len();
        let half_page = {
            let h = self.diff_pane_height / 2;
            if h >= 1 {
                h
            } else {
                1
            }
        };
        let cap = if line_count == 0 {
            0
        } else {
            line_count - 1
        };
        match key {
            KeyInput::Quit => {
                self.should_quit = true;
                Effect::Idle
            },
            KeyInput::Down => {
                if line_count > 0 && self.diff_cursor < line_count - 1 {
                    self.diff_cursor = self.diff_cursor + 1;
                    self.sync_hunk_cursor();
                    if self.diff_cursor >= self.diff_scroll && self.diff_cursor - self.diff_scroll
                        >= self.diff_pane_height {
                        self.diff_scroll = self.diff_cursor - self.diff_pane_height + 1;
                    }
                }
                Effect::Idle
            },
            KeyInput::Up => {
                if self.diff_cursor > 0 {
                    self.diff_cursor = self.diff_cursor - 1;
                    self.sync_hunk_cursor();
                    if self.diff_cursor < self.diff_scroll {
                        self.diff_scroll = self.diff_cursor;
                    }
                }
                Effect::Idle
            },
            KeyInput::HalfPageDown => {
                self.diff_cursor = if self.diff_cursor < cap && cap - self.diff_cursor > half_page {
                    self.diff_cursor + half_page
                } else {
                    cap
                };
                self.sync_hunk_cursor();
                if self.diff_cursor >= self.diff_scroll && self.diff_cursor - self.diff_scroll
                    >= self.diff_pane_height {
                    self.diff_scroll = self.diff_cursor - self.diff_pane_height + 1;
                }
                Effect::Idle
            },
            KeyInput::HalfPageUp => {
                self.diff_cursor = if self.diff_cursor > half_page {
                    self.diff_cursor - half_page
                } else {
                    0
                };
                self.sync_hunk_cursor();
                if self.diff_cursor < self.diff_scroll {
                    self.diff_scroll = self.diff_cursor;
                }
                Effect::Idle
            },
            KeyInput::NextHunk => {
                self.jump_next_hunk();
                Effect::Idle
            },
            KeyInput::PrevHunk => {
                self.jump_prev_hunk();
                Effect::Idle
            },
            KeyInput::Enter => self.apply_current_line(),
            KeyInput::SelectMode => {
                self.focus = Focus::DiffView;
                Effect::Idle
            },
            KeyInput::Left => {
                self.focus = match self.diff_origin {
                    Some(p) => p.to_focus(),
                    None => Focus::Unstaged,
                };
                Effect::Idle
            },
            _ => Effect::Idle,
        }
    }

    /// Builds the patch that records or un-records exactly the line
    /// under the cursor — forward when the file came from the worktree
    /// pane, reverse when it came from the recorded pane — and asks the
    /// shell to apply it. A non-body line is a reported no-op.
    pub fn apply_current_line(&mut self) -> (r: Effect)
        requires
            old(self).wf(),
        ensures
            final(self).wf(),
            apply_line_ok(*old(self), *final(self), r),
    {
        if self.diff_cursor >= self.line_infos.len() {
            return Effect::Idle;
        }
        let info = self.line_infos[self.diff_cursor];
        if !info.is_selectable {
            self.error_message = Some(String::from_str("Only +/- lines can be applied"));
            return Effect::Idle;
        }
        let h = match info.hunk_idx {
            Some(h) => h,
            None => {
                return Effect::Idle;
            },
        };
        let l = match info.line_in_hunk {
            Some(l) => l,
            None => {
                return Effect::Idle;
            },
        };
        let file = match &self.current_file {
            Some(f) => f.clone(),
            None => {
                return Effect::Idle;
            },
        };
        let pane = match self.diff_origin {
            Some(p) => p,
            None => {
                return Effect::Idle;
            },
        };
        if h >= self.file_diff.hunks.len() {
            return Effect::Idle;
        }
        let mut selected: std::collections::HashSet<usize> = std::collections::HashSet::new();
        selected.insert(l);
        let patch = if pane.is_staged() {
            crate::patch::build_reverse_partial_patch(
                file.as_str(),
                &self.file_diff.hunks[h],
                &selected,
            )
        } else {
            crate::patch::build_partial_patch(file.as_str(), &self.file_diff.hunks[h], &selected)
        };
        Effect::ApplyPatch(ApplyRequest { patch, prev_cursor: self.diff_cursor })
    }

    /// Absorbs a successful line-level apply: shows the status line
    /// and rebuilds both panes; the shell then re-fetches the diff and
    /// calls `finish_line_apply`.
    pub fn line_applied(&mut self, files: &Vec<GitFile>)
        requires
            old(self).wf(),
        ensures
            final(self).wf(),
            diff_fields_eq(*old(self), *final(self)),
            final(self).focus == old(self).focus,
            forall|m: crate::tree::NodeModel|
                #[trigger] crate::tree::contains_model(final(self).unstaged.all_nodes@, m)
                    == crate::tree::built_member(
                    pane_records(files@, false),
                    old(self).unstaged.all_nodes@,
                    m,
                ),
            forall|m: crate::tree::NodeModel|
                #[trigger] crate::tree::contains_model(final(self).staged.all_nodes@, m)
                    == crate::tree::built_member(
                    pane_records(files@, true),
                    old(self).staged.all_nodes@,
                    m,
                ),
            final(self).status_message matches Some(m) && m@ == (if old(self).diff_origin
                == Some(TreePane::Staged) {
                "Unstaged 1 line"@
            } else {
                "Staged 1 line"@
            }),
    {
        let msg = match self.diff_origin {
            Some(TreePane::Staged) => String::from_str("Unstaged 1 line"),
            _ => String::from_str("Staged 1 line"),
        };
        self.status_message = Some(msg);
        self.refresh_trees(files);
    }

    /// Finishes a line-level apply with the re-fetched diff text: when
    /// the file has no change text left, the diff clears and the focus
    /// returns to the originating pane; otherwise the cursor advances
    /// to the next remaining selectable line.
    pub fn finish_line_apply(&mut self, raw: &str, display: &str, prev_cursor: usize)
        requires
            old(self).wf(),
        ensures
            final(self).wf(),
            (old(self).current_file is Some && old(self).diff_origin is Some && spec_parse_diff(
                raw@,
            ).hunks.len() == 0 && crate::text::is_blank(raw@)) ==> (final(self).focus
                == pane_focus(old(self).diff_origin.unwrap()) && cleared_fields(*final(self))),
            (old(self).current_file is None || old(self).diff_origin is None) ==> *final(self)
                == *old(self),
            (old(self).current_file is Some && old(self).diff_origin is Some && !(spec_parse_diff(
                raw@,
            ).hunks.len() == 0 && crate::text::is_blank(raw@))) ==> (final(self).focus == old(
                self,
            ).focus && final(self).diff_cursor as int == ({
                let infos = spec_line_infos(raw@);
                let f = first_sel_in(infos, prev_cursor as int);
                let b = last_sel_before(infos, prev_cursor as int);
                if f >= 0 {
                    f
                } else if b >= 0 {
                    b
                } else if infos.len() == 0 {
                    0int
                } else if prev_cursor >= infos.len() {
                    infos.len() - 1
                } else {
                    prev_cursor as int
                }
            })),
    {
        let pane = self.diff_origin;
        self.reload_current_diff(raw, display);
        match pane {
            Some(p) => {
                if self.current_file.is_some() {
                    proof {
                        assert(self.raw_diff@ == raw@);
                        assert(file_diff_model(self.file_diff).hunks.len()
                            == self.file_diff.hunks@.len());
                        assert(self.line_infos@ == spec_line_infos(raw@));
                    }
                    if self.file_diff.hunks.len() == 0 && crate::text::str_is_blank(
                        self.raw_diff.as_str(),
                    ) {
                        self.clear_diff();
                        self.focus = p.to_focus();
                    } else {
                        let ghost pre_move = *self;
                        proof {
                            assert(pre_move.line_infos.len() == pre_move.line_infos@.len());
                            assert(pre_move.line_infos@.len() <= usize::MAX);
                        }
                        self.move_to_next_selectable(prev_cursor);
                        proof {
                            lemma_first_sel_range(pre_move.line_infos@, prev_cursor as int);
                            lemma_last_sel_range(pre_move.line_infos@, prev_cursor as int);
                            assert(first_sel_in(pre_move.line_infos@, prev_cursor as int)
                                == first_sel_in(spec_line_infos(raw@), prev_cursor as int));
                        }
                    }
                }
            },
            None => {},
        }
    }

    /// Handles one key while a tree pane holds the focus: cursor
    /// movement with its preview, opening and collapsing rows,
    /// recording and un-recording, copying a path and the help line.
    pub fn handle_tree_key(&mut self, key: KeyInput) -> (r: Effect)
        requires
            old(self).wf(),
        ensures
            final(self).wf(),
            tree_key_ok(key, *old(self), *final(self), r),
    {
        match key {
            KeyInput::Quit => {
                self.should_quit = true;
                Effect::Idle
            },
            KeyInput::Down => {
                self.tree_move_down();
                match self.tree_load_preview() {
                    Some(req) => Effect::FetchDiff(req),
                    None => Effect::Idle,
                }
            },
            KeyInput::Up => {
                self.tree_move_up();
                match self.tree_load_preview() {
                    Some(req) => Effect::FetchDiff(req),
                    None => Effect::Idle,
                }
            },
            KeyInput::Right => {
                match self.tree_action_right() {
                    Some(req) => Effect::FetchDiff(req),
                    None => Effect::Idle,
                }
            },
            KeyInput::Left => {
                self.tree_action_left();
                Effect::Idle
            },
            KeyInput::Enter => {
                match self.tree_enter() {
                    Some(req) => Effect::Stage(req),
                    None => Effect::Idle,
                }
            },
            KeyInput::Copy => {
                match self.tree_copy_path_to_clipboard() {
                    Some(p) => Effect::CopyPath(p),
                    None => Effect::Idle,
                }
            },
            KeyInput::Help => {
                self.status_message = Some(
                    String::from_str(
                        "j/k:move  l:open  h:back  Enter:stage/unstage  c:copy-path  r:refresh  v:line-select  n/p:hunk  q:quit",
                    ),
                );
                Effect::Idle
            },
            _ => Effect::Idle,
        }
    }

    /// Handles one key wherever the focus is: transient messages are
    /// cleared, a refresh is requested globally, and everything else is
    /// dispatched to the focused part.
    pub fn handle_key(&mut self, key: KeyInput) -> (r: Effect)
        requires
            old(self).wf(),
        ensures
            final(self).wf(),
            key is Refresh ==> r is Refresh && *final(self) == (App {
                status_message: None,
                error_message: None,
                ..*old(self)
            }),
            key is Quit ==> final(self).should_quit,
            !(key is Refresh) ==> ({
                let mid = (App { status_message: None, error_message: None, ..*old(self) });
                match old(self).focus {
                    Focus::Unstaged | Focus::Staged => tree_key_ok(key, mid, *final(self), r),
                    Focus::DiffView => diff_key_ok(key, mid, *final(self)) && r is Idle,
                    Focus::InlineSelect => inline_key_ok(key, mid, *final(self), r),
                }
            }),
    {
        self.error_message = None;
        self.status_message = None;
        if matches!(key, KeyInput::Refresh) {
            return Effect::Refresh;
        }
        match self.focus {
            Focus::Unstaged | Focus::Staged => self.handle_tree_key(key),
            Focus::DiffView => {
                self.handle_diff_key(key);
                Effect::Idle
            },
            Focus::InlineSelect => self.handle_inline_select_key(key),
        }
    }
}

/// A found forward hit lies between `from` and the end.
pub proof fn lemma_first_sel_range(infos: Seq<DisplayLineInfo>, from: int)
    ensures
        first_sel_in(infos, from) >= 0 ==> from <= first_sel_in(infos, from) < infos.len(),
    decreases infos.len() - from,
{
    if !(from >= infos.len() || from < 0) && !infos[from].is_selectable {
        lemma_first_sel_range(infos, from + 1);
    }
}

/// A found backward hit lies between zero and `from`.
pub proof fn lemma_last_sel_range(infos: Seq<DisplayLineInfo>, from: int)
    ensures
        last_sel_before(infos, from) >= 0 ==> 0 <= last_sel_before(infos, from) < from
            && last_sel_before(infos, from) < infos.len(),
    decreases from,
{
    if from > 0 {
        if from - 1 >= infos.len() || !infos[from - 1].is_selectable {
            lemma_last_sel_range(infos, from - 1);
        }
    }
}

proof fn lemma_last_sel_high(infos: Seq<DisplayLineInfo>, from: int)
    requires
        from >= infos.len(),
    ensures
        last_sel_before(infos, from) == last_sel_before(infos, infos.len() as int),
    decreases from,
{
    if from > infos.len() {
        lemma_last_sel_high(infos, from - 1);
    }
}

proof fn lemma_empty_diff_state(t: Seq<char>)
    requires
        t.len() == 0,
    ensures
        spec_parse_diff(t).path == Seq::<char>::empty(),
        !spec_parse_diff(t).is_binary,
        spec_parse_diff(t).hunks == Seq::<crate::diff::HunkModel>::empty(),
        spec_line_infos(t) == Seq::<DisplayLineInfo>::empty(),
{
    assert(!crate::text::contains_seq(t, "Binary files"@)) by {
        reveal_strlit("Binary files");
    }
    assert(spec_lines(t) =~= Seq::<Seq<char>>::empty());
    assert(spec_parse_diff(t).hunks =~= Seq::<crate::diff::HunkModel>::empty());
}

} // verus!
