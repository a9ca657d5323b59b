//! Structured representation of a unified diff for one file, and the
//! parser that produces it from raw diff text.

use vstd::prelude::*;

verus! {

/// One body line of a hunk.
#[derive(Debug, Clone)]
pub enum DiffLine {
    Context(String),
    Added(String),
    Removed(String),
}

/// The text carried by a line, without its `' '`/`'+'`/`'-'` prefix.
pub open spec fn line_text(l: DiffLine) -> Seq<char> {
    match l {
        DiffLine::Context(s) => s@,
        DiffLine::Added(s) => s@,
        DiffLine::Removed(s) => s@,
    }
}

/// A contiguous block of a unified diff: the `@@` header ranges and the
/// ordered body lines. Line order is fixed at parse time and is the
/// stable addressing scheme for line selection.
#[derive(Debug, Clone)]
pub struct Hunk {
    pub header: String,
    pub old_start: u32,
    pub old_count: u32,
    pub new_start: u32,
    pub new_count: u32,
    pub lines: Vec<DiffLine>,
}

/// The parsed diff of one file: a binary marker or a list of hunks.
#[derive(Debug, Clone)]
pub struct FileDiff {
    pub path: String,
    pub is_binary: bool,
    pub hunks: Vec<Hunk>,
}

impl Default for FileDiff {
    /// An empty, non-binary diff.
    fn default() -> (r: FileDiff)
        ensures
            r.path@ == Seq::<char>::empty(),
            !r.is_binary,
            r.hunks@ == Seq::<Hunk>::empty(),
    {
        FileDiff { path: String::new(), is_binary: false, hunks: Vec::new() }
    }
}

/// Spec-level model of one body line: its kind and text.
pub enum LineModel {
    Context(Seq<char>),
    Added(Seq<char>),
    Removed(Seq<char>),
}

/// Spec-level model of a hunk.
pub struct HunkModel {
    pub header: Seq<char>,
    pub old_start: u32,
    pub old_count: u32,
    pub new_start: u32,
    pub new_count: u32,
    pub lines: Seq<LineModel>,
}

/// Spec-level model of a file diff.
pub struct FileDiffModel {
    pub path: Seq<char>,
    pub is_binary: bool,
    pub hunks: Seq<HunkModel>,
}

/// The model of a concrete line.
pub open spec fn line_model(l: DiffLine) -> LineModel {
    match l {
        DiffLine::Context(s) => LineModel::Context(s@),
        DiffLine::Added(s) => LineModel::Added(s@),
        DiffLine::Removed(s) => LineModel::Removed(s@),
    }
}

/// The model of a concrete hunk.
pub open spec fn hunk_model(h: Hunk) -> HunkModel {
    HunkModel {
        header: h.header@,
        old_start: h.old_start,
        old_count: h.old_count,
        new_start: h.new_start,
        new_count: h.new_count,
        lines: h.lines@.map_values(|l: DiffLine| line_model(l)),
    }
}

/// The model of a concrete file diff.
pub open spec fn file_diff_model(fd: FileDiff) -> FileDiffModel {
    FileDiffModel {
        path: fd.path@,
        is_binary: fd.is_binary,
        hunks: fd.hunks@.map_values(|h: Hunk| hunk_model(h)),
    }
}

/// One range field of a hunk header: `start[,count]`. A missing count
/// defaults to one; an unparsable start defaults to one; an unparsable
/// count defaults to zero.
pub open spec fn spec_parse_range(s: Seq<char>) -> (u32, u32) {
    let i = crate::text::find_ch(s, ',');
    if 0 <= i < s.len() {
        (
            crate::text::spec_parse_u32_or(s.take(i), 1),
            crate::text::spec_parse_u32_or(s.skip(i + 1), 0),
        )
    } else {
        (crate::text::spec_parse_u32_or(s, 1), 1)
    }
}

/// A parsed `@@` header line: space-separated fields, of which the
/// second (leading `'-'` runs stripped) gives the old range and the
/// third (leading `'+'` runs stripped) the new range. A header with
/// fewer than three fields is rejected.
pub open spec fn spec_parse_hunk_header(line: Seq<char>) -> Option<HunkModel> {
    let parts = crate::text::spec_split(line, ' ');
    if parts.len() < 3 {
        None
    } else {
        let old = crate::text::drop_leading(parts[1], '-');
        let new = crate::text::drop_leading(parts[2], '+');
        let (old_start, old_count) = spec_parse_range(old);
        let (new_start, new_count) = spec_parse_range(new);
        Some(
            HunkModel {
                header: line,
                old_start,
                old_count,
                new_start,
                new_count,
                lines: seq![],
            },
        )
    }
}

/// The parser's running state: the path seen so far, the hunk being
/// filled, and the finished hunks.
pub struct ParseState {
    pub path: Seq<char>,
    pub cur: Option<HunkModel>,
    pub hunks: Seq<HunkModel>,
}

/// The finished hunks once the hunk in progress is closed.
pub open spec fn flush(st: ParseState) -> Seq<HunkModel> {
    match st.cur {
        Some(h) => st.hunks.push(h),
        None => st.hunks,
    }
}

/// One line of input applied to the parser state: a `+++ b/` line
/// records the path; an `@@` line closes the current hunk and opens a
/// new one; inside a hunk, a leading `'+'`/`'-'`/`' '` classifies a body
/// line and any other leading character is dropped; outside a hunk the
/// line is ignored.
pub open spec fn parse_step(st: ParseState, line: Seq<char>) -> ParseState {
    if crate::text::starts_with(line, "+++ b/"@) {
        ParseState { path: line.skip(6), cur: st.cur, hunks: st.hunks }
    } else if crate::text::starts_with(line, "@@"@) {
        ParseState { path: st.path, cur: spec_parse_hunk_header(line), hunks: flush(st) }
    } else {
        match st.cur {
            Some(h) => {
                if line.len() > 0 && line[0] == '+' {
                    ParseState {
                        path: st.path,
                        cur: Some(
                            HunkModel {
                                lines: h.lines.push(LineModel::Added(line.skip(1))),
                                ..h
                            },
                        ),
                        hunks: st.hunks,
                    }
                } else if line.len() > 0 && line[0] == '-' {
                    ParseState {
                        path: st.path,
                        cur: Some(
                            HunkModel {
                                lines: h.lines.push(LineModel::Removed(line.skip(1))),
                                ..h
                            },
                        ),
                        hunks: st.hunks,
                    }
                } else if line.len() > 0 && line[0] == ' ' {
                    ParseState {
                        path: st.path,
                        cur: Some(
                            HunkModel {
                                lines: h.lines.push(LineModel::Context(line.skip(1))),
                                ..h
                            },
                        ),
                        hunks: st.hunks,
                    }
                } else {
                    st
                }
            },
            None => st,
        }
    }
}

/// The parser state after consuming `lines`, starting from `st`.
pub open spec fn parse_lines_from(lines: Seq<Seq<char>>, st: ParseState) -> ParseState
    decreases lines.len(),
{
    if lines.len() == 0 {
        st
    } else {
        parse_lines_from(lines.drop_first(), parse_step(st, lines[0]))
    }
}

/// The initial parser state.
pub open spec fn parse_init() -> ParseState {
    ParseState { path: Seq::empty(), cur: None, hunks: seq![] }
}

/// What parsing a whole diff text yields: a binary marker anywhere in
/// the text short-circuits to a binary diff with no hunks; otherwise the
/// text is consumed line by line.
pub open spec fn spec_parse_diff(text: Seq<char>) -> FileDiffModel {
    if crate::text::contains_seq(text, "Binary files"@) {
        FileDiffModel { path: Seq::empty(), is_binary: true, hunks: seq![] }
    } else {
        let st = parse_lines_from(crate::text::spec_lines(text), parse_init());
        FileDiffModel { path: st.path, is_binary: false, hunks: flush(st) }
    }
}

/// Parses one `start[,count]` range field.
pub fn parse_range(s: &str) -> (r: (u32, u32))
    ensures
        r == spec_parse_range(s@),
{
    let n = s.unicode_len();
    let mut i: usize = 0;
    while i < n
        invariant
            i <= n,
            n == s@.len(),
            forall|j: int| 0 <= j < i ==> s@[j] != ',',
        decreases n - i,
    {
        if s.get_char(i) == ',' {
            proof {
                crate::text::lemma_find_ch_at(s@, ',', i as int);
            }
            let start = crate::text::parse_u32_or(s.substring_char(0, i), 1);
            let count = crate::text::parse_u32_or(s.substring_char(i + 1, n), 0);
            proof {
                assert(s@.subrange(0, i as int) =~= s@.take(i as int));
                assert(s@.subrange(i + 1, n as int) =~= s@.skip(i + 1));
            }
            return (start, count);
        }
        i += 1;
    }
    proof {
        crate::text::lemma_find_ch(s@, ',');
    }
    (crate::text::parse_u32_or(s, 1), 1)
}

/// Parses an `@@` header line into an empty hunk carrying its ranges.
pub fn parse_hunk_header(line: &str) -> (r: Option<Hunk>)
    ensures
        match r {
            Some(h) => spec_parse_hunk_header(line@) == Some(hunk_model(h)),
            None => spec_parse_hunk_header(line@) is None,
        },
{
    let parts = crate::text::split_char(line, ' ');
    if parts.len() < 3 {
        return None;
    }
    let old = crate::text::trim_leading(parts[1].as_str(), '-');
    let new = crate::text::trim_leading(parts[2].as_str(), '+');
    let (old_start, old_count) = parse_range(old.as_str());
    let (new_start, new_count) = parse_range(new.as_str());
    let h = Hunk {
        header: line.to_owned(),
        old_start,
        old_count,
        new_start,
        new_count,
        lines: Vec::new(),
    };
    proof {
        assert(parts.deep_view()[1] == parts@[1]@);
        assert(parts.deep_view()[2] == parts@[2]@);
        assert(hunk_model(h).lines =~= Seq::<LineModel>::empty());
        assert(spec_parse_hunk_header(line@) == Some(hunk_model(h)));
    }
    Some(h)
}

/// The model of an optional concrete hunk.
pub open spec fn opt_hunk_model(c: Option<Hunk>) -> Option<HunkModel> {
    match c {
        Some(h) => Some(hunk_model(h)),
        None => None,
    }
}

/// The model of the exec parser's running state.
pub open spec fn state_model(path: Seq<char>, cur: Option<Hunk>, hunks: Seq<Hunk>) -> ParseState {
    ParseState {
        path: path,
        cur: opt_hunk_model(cur),
        hunks: hunks.map_values(|h: Hunk| hunk_model(h)),
    }
}

/// Parses the raw diff text of one file into its structured form.
/// Malformed input degrades gracefully and never fails: unknown leading
/// characters are dropped and unparsable numbers take defaults.
pub fn parse_diff(diff_text: &str) -> (r: FileDiff)
    ensures
        file_diff_model(r) == spec_parse_diff(diff_text@),
{
    if crate::text::str_contains(diff_text, "Binary files") {
        let r = FileDiff { path: String::new(), is_binary: true, hunks: Vec::new() };
        proof {
            assert(file_diff_model(r).hunks =~= Seq::<HunkModel>::empty());
        }
        return r;
    }
    let lines = crate::text::split_lines(diff_text);
    let ghost all = lines.deep_view();
    let mut hunks: Vec<Hunk> = Vec::new();
    let mut current: Option<Hunk> = None;
    let mut path = String::new();
    let n = lines.len();
    let mut i: usize = 0;
    proof {
        assert(all.skip(0) =~= all);
        assert(hunks@.map_values(|h: Hunk| hunk_model(h)) =~= Seq::<HunkModel>::empty());
        assert(state_model(path@, current, hunks@) == parse_init());
    }
    while i < n
        invariant
            i <= n,
            n == all.len(),
            all == lines.deep_view(),
            n == lines@.len(),
            parse_lines_from(all, parse_init()) == parse_lines_from(
                all.skip(i as int),
                state_model(path@, current, hunks@),
            ),
        decreases n - i,
    {
        let ghost st = state_model(path@, current, hunks@);
        let ghost line_v = all[i as int];
        proof {
            assert(lines@[i as int]@ == all[i as int]);
            assert(all.skip(i as int)[0] == all[i as int]);
            assert(all.skip(i as int).drop_first() =~= all.skip(i + 1));
        }
        let line = &lines[i];
        let m = line.unicode_len();
        if crate::text::str_starts_with(line.as_str(), "+++ b/") {
            proof {
                reveal_strlit("+++ b/");
            }
            path = line.as_str().substring_char(6, m).to_owned();
            proof {
                assert(path@ =~= line_v.skip(6));
                assert(state_model(path@, current, hunks@) == parse_step(st, line_v));
            }
        } else if crate::text::str_starts_with(line.as_str(), "@@") {
            let prev = current;
            current = parse_hunk_header(line.as_str());
            match prev {
                Some(h) => {
                    let ghost old_hunks = hunks@;
                    hunks.push(h);
                    proof {
                        assert(hunks@.map_values(|x: Hunk| hunk_model(x)) =~= old_hunks.map_values(
                            |x: Hunk| hunk_model(x),
                        ).push(hunk_model(h)));
                    }
                },
                None => {},
            }
            proof {
                assert(state_model(path@, current, hunks@) == parse_step(st, line_v));
            }
        } else {
            let taken = current;
            match taken {
                Some(mut h) => {
                    if m > 0 {
                        let c0 = line.as_str().get_char(0);
                        if c0 == '+' {
                            let ghost old_lines = h.lines@;
                            h.lines.push(DiffLine::Added(line.as_str().substring_char(1, m)
                                .to_owned()));
                            proof {
                                assert(line_v.skip(1) =~= line_v.subrange(1, m as int));
                                assert(h.lines@.map_values(|l: DiffLine| line_model(l))
                                    =~= old_lines.map_values(|l: DiffLine| line_model(l)).push(
                                    LineModel::Added(line_v.skip(1)),
                                ));
                            }
                            current = Some(h);
                        } else if c0 == '-' {
                            let ghost old_lines = h.lines@;
                            h.lines.push(DiffLine::Removed(line.as_str().substring_char(1, m)
                                .to_owned()));
                            proof {
                                assert(line_v.skip(1) =~= line_v.subrange(1, m as int));
                                assert(h.lines@.map_values(|l: DiffLine| line_model(l))
                                    =~= old_lines.map_values(|l: DiffLine| line_model(l)).push(
                                    LineModel::Removed(line_v.skip(1)),
                                ));
                            }
                            current = Some(h);
                        } else if c0 == ' ' {
                            let ghost old_lines = h.lines@;
                            h.lines.push(DiffLine::Context(line.as_str().substring_char(1, m)
                                .to_owned()));
                            proof {
                                assert(line_v.skip(1) =~= line_v.subrange(1, m as int));
                                assert(h.lines@.map_values(|l: DiffLine| line_model(l))
                                    =~= old_lines.map_values(|l: DiffLine| line_model(l)).push(
                                    LineModel::Context(line_v.skip(1)),
                                ));
                            }
                            current = Some(h);
                        } else {
                            current = Some(h);
                        }
                    } else {
                        current = Some(h);
                    }
                },
                None => {
                    current = None;
                },
            }
            proof {
                assert(state_model(path@, current, hunks@) == parse_step(st, line_v));
            }
        }
        i += 1;
    }
    proof {
        assert(all.skip(n as int) =~= Seq::<Seq<char>>::empty());
    }
    match current {
        Some(h) => {
            let ghost old_hunks = hunks@;
            hunks.push(h);
            proof {
                assert(hunks@.map_values(|x: Hunk| hunk_model(x)) =~= old_hunks.map_values(
                    |x: Hunk| hunk_model(x),
                ).push(hunk_model(h)));
            }
        },
        None => {},
    }
    FileDiff { path, is_binary: false, hunks }
}

} // verus!
