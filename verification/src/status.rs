//! Parsing of change-status listings: the two-column porcelain format
//! for the working copy, and the tab-separated name-status format for a
//! commit.

use vstd::prelude::*;

verus! {

use vstd::string::StrSliceExecFns;
use crate::text::{
    spec_lines,
    spec_split,
    split_lines,
    split_char,
    drop_leading,
    drop_trailing,
    trim_both,
    is_blank,
    str_is_blank,
};

/// One changed file: its path and the two status characters, recorded
/// (index) side first.
#[derive(Debug, Clone)]
pub struct GitFile {
    pub path: String,
    pub staged: char,
    pub unstaged: char,
}

/// Spec-level model of a changed file.
pub struct GitFileModel {
    pub path: Seq<char>,
    pub staged: char,
    pub unstaged: char,
}

/// The model of a concrete record.
pub open spec fn gitfile_model(f: GitFile) -> GitFileModel {
    GitFileModel { path: f.path@, staged: f.staged, unstaged: f.unstaged }
}

/// Relies on `String::push`: appends exactly the one character.
#[verifier::external_body]
fn push_char(s: &mut String, c: char)
    ensures
        final(s)@ == old(s)@ + seq![c],
{
    s.push(c)
}

impl GitFile {
    /// A file unknown to the recorded state: both columns are `'?'`.
    pub fn is_untracked(&self) -> (r: bool)
        ensures
            r == (self.staged == '?' && self.unstaged == '?'),
    {
        self.staged == '?' && self.unstaged == '?'
    }

    /// A file with unresolved merge conflicts: either column is `'U'`.
    pub fn is_unmerged(&self) -> (r: bool)
        ensures
            r == (self.staged == 'U' || self.unstaged == 'U'),
    {
        self.staged == 'U' || self.unstaged == 'U'
    }

    /// Both status columns as a two-character text.
    pub fn display_status(&self) -> (r: String)
        ensures
            r@ == seq![self.staged, self.unstaged],
    {
        let mut r = String::new();
        push_char(&mut r, self.staged);
        push_char(&mut r, self.unstaged);
        proof {
            assert(r@ =~= seq![self.staged, self.unstaged]);
        }
        r
    }

    /// The single most telling status character: the recorded column
    /// when it carries a real state, the worktree column otherwise.
    pub fn short_status(&self) -> (r: char)
        ensures
            r == if self.staged != ' ' && self.staged != '?' {
                self.staged
            } else {
                self.unstaged
            },
    {
        if self.staged != ' ' && self.staged != '?' {
            self.staged
        } else {
            self.unstaged
        }
    }
}

/// The start of the last occurrence of `p` in `s`, or -1 when there is
/// none.
pub open spec fn rfind_sub(s: Seq<char>, p: Seq<char>) -> int
    decreases s.len(),
{
    if p.len() > s.len() {
        -1
    } else {
        let k = s.len() - p.len();
        if s.subrange(k, s.len() as int) == p {
            k
        } else if s.len() == 0 {
            -1
        } else {
            rfind_sub(s.drop_last(), p)
        }
    }
}

proof fn lemma_rfind_at(s: Seq<char>, p: Seq<char>, k: int)
    requires
        p.len() > 0,
        0 <= k <= s.len() - p.len(),
        s.subrange(k, k + p.len() as int) == p,
        forall|j: int| k < j <= s.len() - p.len() ==> #[trigger] s.subrange(j, j + p.len() as int)
            != p,
    ensures
        rfind_sub(s, p) == k,
    decreases s.len(),
{
    let e = s.len() - p.len();
    if k == e {
    } else {
        assert(s.subrange(e, s.len() as int) == s.subrange(e, e + p.len() as int));
        let t = s.drop_last();
        assert forall|j: int| k < j <= t.len() - p.len() implies #[trigger] t.subrange(
            j,
            j + p.len() as int,
        ) != p by {
            assert(t.subrange(j, j + p.len() as int) =~= s.subrange(j, j + p.len() as int));
        }
        assert(t.subrange(k, k + p.len() as int) =~= s.subrange(k, k + p.len() as int));
        lemma_rfind_at(t, p, k);
    }
}

proof fn lemma_rfind_none(s: Seq<char>, p: Seq<char>)
    requires
        p.len() > 0,
        forall|j: int| 0 <= j <= s.len() - p.len() ==> #[trigger] s.subrange(j, j + p.len() as int)
            != p,
    ensures
        rfind_sub(s, p) == -1,
    decreases s.len(),
{
    if p.len() <= s.len() {
        let e = s.len() - p.len();
        assert(s.subrange(e, s.len() as int) == s.subrange(e, e + p.len() as int));
        let t = s.drop_last();
        assert forall|j: int| 0 <= j <= t.len() - p.len() implies #[trigger] t.subrange(
            j,
            j + p.len() as int,
        ) != p by {
            assert(t.subrange(j, j + p.len() as int) =~= s.subrange(j, j + p.len() as int));
        }
        lemma_rfind_none(t, p);
    }
}

/// What one porcelain line yields: lines shorter than three characters
/// are dropped; the first two characters are the status columns; the
/// path is the text from the fourth character on, taking the part after
/// the last ` -> ` of a rename and stripping surrounding quotes; an
/// empty path drops the line.
pub open spec fn status_entry(line: Seq<char>) -> Option<GitFileModel> {
    if line.len() < 3 {
        None
    } else {
        let rest = line.skip(3);
        let k = rfind_sub(rest, " -> "@);
        let path0 = if k >= 0 {
            rest.skip(k + 4)
        } else {
            rest
        };
        let path = drop_trailing(drop_leading(path0, '"'), '"');
        if path.len() == 0 {
            None
        } else {
            Some(GitFileModel { path: path, staged: line[0], unstaged: line[1] })
        }
    }
}

/// The records of a whole porcelain listing, in order.
pub open spec fn status_entries(lines: Seq<Seq<char>>) -> Seq<GitFileModel>
    decreases lines.len(),
{
    if lines.len() == 0 {
        seq![]
    } else {
        status_entries(lines.drop_last()) + match status_entry(lines.last()) {
            Some(f) => seq![f],
            None => seq![],
        }
    }
}

/// What parsing a porcelain status listing yields.
pub open spec fn spec_parse_status(text: Seq<char>) -> Seq<GitFileModel> {
    status_entries(spec_lines(text))
}

/// Finds the start of the last ` -> ` in `s`, if any.
fn rfind_arrow(s: &str) -> (r: Option<usize>)
    ensures
        match r {
            Some(k) => rfind_sub(s@, " -> "@) == k && k + 4 <= s@.len(),
            None => rfind_sub(s@, " -> "@) == -1,
        },
{
    proof {
        reveal_strlit(" -> ");
    }
    let n = s.unicode_len();
    if n < 4 {
        proof {
            lemma_rfind_none(s@, " -> "@);
        }
        return None;
    }
    let mut k: usize = n - 4;
    loop
        invariant
            k <= n - 4,
            n == s@.len(),
            n >= 4,
            forall|j: int| k < j <= n - 4 ==> #[trigger] s@.subrange(j, j + 4) != " -> "@,
        decreases k + 1,
    {
        let hit = s.get_char(k) == ' ' && s.get_char(k + 1) == '-' && s.get_char(k + 2) == '>'
            && s.get_char(k + 3) == ' ';
        if hit {
            proof {
                reveal_strlit(" -> ");
                assert(s@.subrange(k as int, k + 4) =~= " -> "@);
                assert(forall|j: int| k < j <= n - 4 ==> #[trigger] s@.subrange(j, j + 4)
                    != " -> "@);
                lemma_rfind_at(s@, " -> "@, k as int);
            }
            return Some(k);
        }
        proof {
            reveal_strlit(" -> ");
            assert(s@.subrange(k as int, k + 4) != " -> "@) by {
                if s@.subrange(k as int, k + 4) == " -> "@ {
                    assert(s@.subrange(k as int, k + 4)[0] == s@[k as int]);
                    assert(s@.subrange(k as int, k + 4)[1] == s@[k + 1]);
                    assert(s@.subrange(k as int, k + 4)[2] == s@[k + 2]);
                    assert(s@.subrange(k as int, k + 4)[3] == s@[k + 3]);
                }
            }
        }
        if k == 0 {
            proof {
                lemma_rfind_none(s@, " -> "@);
            }
            return None;
        }
        k -= 1;
    }
}

/// Parses a porcelain status listing into its records.
pub fn parse_status(output: &str) -> (r: Vec<GitFile>)
    ensures
        r@.map_values(|f: GitFile| gitfile_model(f)) == spec_parse_status(output@),
{
    let lines = split_lines(output);
    let ghost all = lines.deep_view();
    let mut files: Vec<GitFile> = Vec::new();
    let n = lines.len();
    let mut i: usize = 0;
    proof {
        assert(all.take(0) =~= Seq::<Seq<char>>::empty());
        assert(files@.map_values(|f: GitFile| gitfile_model(f)) =~= status_entries(all.take(0)));
    }
    while i < n
        invariant
            i <= n,
            n == all.len(),
            n == lines@.len(),
            all == lines.deep_view(),
            files@.map_values(|f: GitFile| gitfile_model(f)) == status_entries(all.take(i as int)),
        decreases n - i,
    {
        let ghost line_v = all[i as int];
        proof {
            assert(lines@[i as int]@ == all[i as int]);
            assert(all.take(i + 1).drop_last() =~= all.take(i as int));
            assert(all.take(i + 1).last() == line_v);
        }
        let line = &lines[i];
        let m = line.unicode_len();
        if m >= 3 {
            let staged = line.as_str().get_char(0);
            let unstaged = line.as_str().get_char(1);
            let rest = line.as_str().substring_char(3, m).to_owned();
            proof {
                assert(rest@ =~= line_v.skip(3));
            }
            let path0 = match rfind_arrow(rest.as_str()) {
                Some(k) => {
                    let r = rest.as_str().substring_char(k + 4, m - 3).to_owned();
                    proof {
                        assert(r@ =~= rest@.skip(k + 4));
                    }
                    r
                },
                None => rest,
            };
            let path = trim_both(path0.as_str(), '"');
            if path.unicode_len() > 0 {
                let ghost old_files = files@;
                files.push(GitFile { path, staged, unstaged });
                proof {
                    assert(files@.map_values(|f: GitFile| gitfile_model(f))
                        =~= old_files.map_values(|f: GitFile| gitfile_model(f)) + seq![
                        status_entry(line_v).unwrap(),
                    ]);
                }
            } else {
                proof {
                    assert(files@.map_values(|f: GitFile| gitfile_model(f)) + Seq::<
                        GitFileModel,
                    >::empty() =~= files@.map_values(|f: GitFile| gitfile_model(f)));
                }
            }
        } else {
            proof {
                assert(files@.map_values(|f: GitFile| gitfile_model(f)) + Seq::<
                    GitFileModel,
                >::empty() =~= files@.map_values(|f: GitFile| gitfile_model(f)));
            }
        }
        i += 1;
    }
    proof {
        assert(all.take(n as int) =~= all);
    }
    files
}

/// What one name-status line yields: blank lines and lines with fewer
/// than two tab-separated fields are dropped; the first character of the
/// first field is the status (a blank when the field is empty); renames
/// and copies take their third field as the path, everything else the
/// second; both columns carry the status.
pub open spec fn commit_entry(line: Seq<char>) -> Option<GitFileModel> {
    if is_blank(line) {
        None
    } else {
        let parts = spec_split(line, '\t');
        if parts.len() < 2 {
            None
        } else {
            let status = if parts[0].len() > 0 {
                parts[0][0]
            } else {
                ' '
            };
            let path = if (status == 'R' || status == 'C') && parts.len() >= 3 {
                parts[2]
            } else {
                parts[1]
            };
            if path.len() == 0 {
                None
            } else {
                Some(GitFileModel { path: path, staged: status, unstaged: status })
            }
        }
    }
}

/// The records of a whole name-status listing, in order.
pub open spec fn commit_entries(lines: Seq<Seq<char>>) -> Seq<GitFileModel>
    decreases lines.len(),
{
    if lines.len() == 0 {
        seq![]
    } else {
        commit_entries(lines.drop_last()) + match commit_entry(lines.last()) {
            Some(f) => seq![f],
            None => seq![],
        }
    }
}

/// What parsing a commit's name-status listing yields.
pub open spec fn spec_parse_commit_name_status(text: Seq<char>) -> Seq<GitFileModel> {
    commit_entries(spec_lines(text))
}

/// Parses a commit's name-status listing into its records.
pub fn parse_commit_name_status(output: &str) -> (r: Vec<GitFile>)
    ensures
        r@.map_values(|f: GitFile| gitfile_model(f)) == spec_parse_commit_name_status(output@),
{
    let lines = split_lines(output);
    let ghost all = lines.deep_view();
    let mut files: Vec<GitFile> = Vec::new();
    let n = lines.len();
    let mut i: usize = 0;
    proof {
        assert(all.take(0) =~= Seq::<Seq<char>>::empty());
        assert(files@.map_values(|f: GitFile| gitfile_model(f)) =~= commit_entries(all.take(0)));
    }
    while i < n
        invariant
            i <= n,
            n == all.len(),
            n == lines@.len(),
            all == lines.deep_view(),
            files@.map_values(|f: GitFile| gitfile_model(f)) == commit_entries(all.take(i as int)),
        decreases n - i,
    {
        let ghost line_v = all[i as int];
        proof {
            assert(lines@[i as int]@ == all[i as int]);
            assert(all.take(i + 1).drop_last() =~= all.take(i as int));
            assert(all.take(i + 1).last() == line_v);
        }
        let line = &lines[i];
        let mut pushed = false;
        if !str_is_blank(line.as_str()) {
            let parts = split_char(line.as_str(), '\t');
            if parts.len() >= 2 {
                proof {
                    assert(parts.deep_view()[0] == parts@[0]@);
                    assert(parts.deep_view()[1] == parts@[1]@);
                }
                let status = if parts[0].as_str().unicode_len() > 0 {
                    parts[0].as_str().get_char(0)
                } else {
                    ' '
                };
                let path = if (status == 'R' || status == 'C') && parts.len() >= 3 {
                    proof {
                        assert(parts.deep_view()[2] == parts@[2]@);
                    }
                    parts[2].clone()
                } else {
                    parts[1].clone()
                };
                if path.as_str().unicode_len() > 0 {
                    let ghost old_files = files@;
                    files.push(GitFile { path, staged: status, unstaged: status });
                    pushed = true;
                    proof {
                        assert(files@.map_values(|f: GitFile| gitfile_model(f))
                            =~= old_files.map_values(|f: GitFile| gitfile_model(f)) + seq![
                            commit_entry(line_v).unwrap(),
                        ]);
                    }
                }
            }
        }
        if !pushed {
            proof {
                assert(commit_entry(line_v) is None);
                assert(files@.map_values(|f: GitFile| gitfile_model(f)) + Seq::<
                    GitFileModel,
                >::empty() =~= files@.map_values(|f: GitFile| gitfile_model(f)));
            }
        }
        i += 1;
    }
    proof {
        assert(all.take(n as int) =~= all);
    }
    files
}

} // verus!
