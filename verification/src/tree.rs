//! The change-tree model for one pane: a flat, key-sorted arena of file
//! and directory nodes, a derived list of visible row indices, and a
//! cursor into it. Directories exist only as the proper path prefixes of
//! the changed files; a directory sorts immediately before its children
//! because its sort key carries a trailing separator.

use vstd::prelude::*;

verus! {

use vstd::string::StrSliceExecFns;
use vstd::string::StringExecFns;
use crate::text::{lex_le, str_le, lemma_lex_total, lemma_lex_antisym, lemma_lex_trans};

/// One row of the tree: a changed file or a synthesized directory.
#[derive(Debug, Clone)]
pub struct TreeNode {
    pub path: String,
    pub name: String,
    pub depth: usize,
    pub is_dir: bool,
    pub expanded: bool,
    pub staged: char,
    pub unstaged: char,
}

impl TreeNode {
    /// A file unknown to the recorded state: both columns are `'?'`.
    pub fn is_untracked(&self) -> (r: bool)
        ensures
            r == (self.staged == '?' && self.unstaged == '?'),
    {
        self.staged == '?' && self.unstaged == '?'
    }

    /// A file with unresolved merge conflicts in either column.
    pub fn is_unmerged(&self) -> (r: bool)
        ensures
            r == (self.staged == 'U' || self.unstaged == 'U'),
    {
        self.staged == 'U' || self.unstaged == 'U'
    }

    /// The status character shown in one pane: the worktree column in
    /// the worktree pane; the recorded column in the recorded pane,
    /// with the untracked mark blanked there.
    pub fn status_for(&self, pane: crate::app::TreePane) -> (r: char)
        ensures
            r == (match pane {
                crate::app::TreePane::Unstaged => self.unstaged,
                crate::app::TreePane::Staged => if self.staged == '?' {
                    ' '
                } else {
                    self.staged
                },
            }),
    {
        match pane {
            crate::app::TreePane::Unstaged => self.unstaged,
            crate::app::TreePane::Staged => {
                if self.staged == '?' {
                    ' '
                } else {
                    self.staged
                }
            },
        }
    }
}

/// Strict lexicographic order.
pub open spec fn lex_lt(a: Seq<char>, b: Seq<char>) -> bool {
    lex_le(a, b) && a != b
}

/// The sort key of a node: its path, with a trailing separator for a
/// directory so that it sorts immediately before its children.
pub open spec fn node_key(n: TreeNode) -> Seq<char> {
    if n.is_dir {
        n.path@ + seq!['/']
    } else {
        n.path@
    }
}

/// Keys strictly increase along the node list; in particular every key
/// appears once.
pub open spec fn sorted_unique(nodes: Seq<TreeNode>) -> bool {
    forall|i: int, j: int| 0 <= i < j < nodes.len() ==> lex_lt(
        node_key(#[trigger] nodes[i]),
        node_key(#[trigger] nodes[j]),
    )
}

/// `d` is a proper directory prefix of `p`: `p` continues after `d`
/// with a separator.
pub open spec fn is_dir_prefix(d: Seq<char>, p: Seq<char>) -> bool {
    d.len() < p.len() && p.take(d.len() as int) == d && p[d.len() as int] == '/'
}

/// `q` is an ancestor directory path of the file path `p`: a non-empty
/// proper prefix at a separator boundary that does not itself end in a
/// separator (empty path segments synthesize no directory).
pub open spec fn is_ancestor_prefix(q: Seq<char>, p: Seq<char>) -> bool {
    0 < q.len() && is_dir_prefix(q, p) && q[q.len() - 1] != '/'
}

/// Directory-prefix test on strings.
pub fn path_is_dir_prefix(d: &str, p: &str) -> (r: bool)
    ensures
        r == is_dir_prefix(d@, p@),
{
    let dn = d.unicode_len();
    let pn = p.unicode_len();
    if dn >= pn {
        return false;
    }
    if p.get_char(dn) != '/' {
        return false;
    }
    crate::text::str_starts_with(p, d)
}

/// Spec-level model of a node.
pub struct NodeModel {
    pub path: Seq<char>,
    pub name: Seq<char>,
    pub depth: nat,
    pub is_dir: bool,
    pub expanded: bool,
    pub staged: char,
    pub unstaged: char,
}

/// The model of a concrete node.
pub open spec fn node_model(n: TreeNode) -> NodeModel {
    NodeModel {
        path: n.path@,
        name: n.name@,
        depth: n.depth as nat,
        is_dir: n.is_dir,
        expanded: n.expanded,
        staged: n.staged,
        unstaged: n.unstaged,
    }
}

/// The sort key of a node model.
pub open spec fn model_key(m: NodeModel) -> Seq<char> {
    if m.is_dir {
        m.path + seq!['/']
    } else {
        m.path
    }
}

/// The node value `m` occurs in the list, compared by model.
pub open spec fn contains_model(nodes: Seq<TreeNode>, m: NodeModel) -> bool {
    exists|i: int| 0 <= i < nodes.len() && node_model(#[trigger] nodes[i]) == m
}

/// Some node in the list carries the key `k`.
pub open spec fn has_key(nodes: Seq<TreeNode>, k: Seq<char>) -> bool {
    exists|i: int| 0 <= i < nodes.len() && node_key(#[trigger] nodes[i]) == k
}

/// The suffix of `s` after its last separator (all of `s` when it has
/// none).
pub open spec fn after_last_slash(s: Seq<char>) -> Seq<char>
    decreases s.len(),
{
    if s.len() == 0 || s.last() == '/' {
        seq![]
    } else {
        after_last_slash(s.drop_last()) + seq![s.last()]
    }
}

/// The display name of a node whose sort key is `key`: the last path
/// segment, or the whole key when the path has no segment at all.
pub open spec fn spec_name(path: Seq<char>, key: Seq<char>) -> Seq<char> {
    let base = crate::text::drop_trailing(path, '/');
    if base.len() == 0 {
        key
    } else {
        after_last_slash(base)
    }
}

/// The number of non-empty path segments of `p`.
pub open spec fn seg_count(p: Seq<char>) -> nat
    decreases p.len(),
{
    if p.len() == 0 {
        0
    } else {
        seg_count(p.drop_last()) + if p.last() != '/' && (p.len() == 1 || p[p.len() - 2] == '/') {
            1nat
        } else {
            0nat
        }
    }
}

/// The indentation depth of a node: its segment count less one.
pub open spec fn spec_depth(p: Seq<char>) -> nat {
    if seg_count(p) == 0 {
        0
    } else {
        (seg_count(p) - 1) as nat
    }
}

/// The fold state remembered for directory path `p` by an earlier node
/// list: the last directory node with that path decides; a directory
/// never seen before starts expanded.
pub open spec fn prev_expanded(old: Seq<TreeNode>, p: Seq<char>) -> bool
    decreases old.len(),
{
    if old.len() == 0 {
        true
    } else if old.last().is_dir && old.last().path@ == p {
        old.last().expanded
    } else {
        prev_expanded(old.drop_last(), p)
    }
}

/// The status characters of the last input record with path `p`.
pub open spec fn file_chars(files: Seq<(String, char, char)>, p: Seq<char>) -> Option<(char, char)>
    decreases files.len(),
{
    if files.len() == 0 {
        None
    } else if files.last().0@ == p {
        Some((files.last().1, files.last().2))
    } else {
        file_chars(files.drop_last(), p)
    }
}

/// Some input record has path `p`.
pub open spec fn has_file_path(files: Seq<(String, char, char)>, p: Seq<char>) -> bool {
    exists|i: int| 0 <= i < files.len() && (#[trigger] files[i]).0@ == p
}

/// The file node for input path `p`: collapsed, with the status
/// characters of the last record naming `p`.
pub open spec fn file_node_spec(files: Seq<(String, char, char)>, p: Seq<char>) -> NodeModel {
    let chars = match file_chars(files, p) {
        Some(c) => c,
        None => (' ', ' '),
    };
    NodeModel {
        path: p,
        name: spec_name(p, p),
        depth: spec_depth(p),
        is_dir: false,
        expanded: false,
        staged: chars.0,
        unstaged: chars.1,
    }
}

/// The directory node for path `q`: blank status columns, fold state
/// carried over from the earlier node list.
pub open spec fn dir_node_spec(old: Seq<TreeNode>, q: Seq<char>) -> NodeModel {
    NodeModel {
        path: q,
        name: spec_name(q, q + seq!['/']),
        depth: spec_depth(q),
        is_dir: true,
        expanded: prev_expanded(old, q),
        staged: ' ',
        unstaged: ' ',
    }
}

/// Renders the sort key of a path.
fn key_string(path: &String, is_dir: bool) -> (r: String)
    ensures
        is_dir ==> r@ == path@ + seq!['/'],
        !is_dir ==> r@ == path@,
{
    let mut r = path.clone();
    if is_dir {
        r.append("/");
        proof {
            reveal_strlit("/");
            assert(r@ =~= path@ + seq!['/']);
        }
    }
    r
}

proof fn lemma_after_last_slash_skip(s: Seq<char>, i: int)
    requires
        0 <= i <= s.len(),
        forall|j: int| i <= j < s.len() ==> s[j] != '/',
        i > 0 ==> s[i - 1] == '/',
    ensures
        after_last_slash(s) == s.skip(i),
    decreases s.len() - i,
{
    if i == s.len() {
        assert(s.skip(i) =~= Seq::<char>::empty());
        if s.len() > 0 {
            assert(s.last() == '/');
        }
    } else {
        let t = s.drop_last();
        assert(s.last() != '/');
        lemma_after_last_slash_skip(t, i);
        assert(t.skip(i).push(s.last()) =~= s.skip(i));
        assert(after_last_slash(s) == after_last_slash(t) + seq![s.last()]);
        assert(t.skip(i) + seq![s.last()] =~= t.skip(i).push(s.last()));
    }
}

/// The display name for a node with the given path and key.
fn name_of(path: &String, key: &String) -> (r: String)
    requires
        key@ == path@ || key@ == path@ + seq!['/'],
    ensures
        r@ == spec_name(path@, key@),
{
    let n = path.as_str().unicode_len();
    let mut e: usize = n;
    while e > 0 && path.as_str().get_char(e - 1) == '/'
        invariant
            e <= n,
            n == path@.len(),
            forall|j: int| e <= j < n ==> path@[j] == '/',
        decreases e,
    {
        e -= 1;
    }
    proof {
        let b = path@.take(e as int);
        assert(forall|j: int| e <= j < path@.len() ==> path@[j] == '/');
        if e > 0 {
            assert(path@[e - 1] != '/');
        }
        crate::text::lemma_drop_trailing_take(path@, '/', e as int);
    }
    if e == 0 {
        return key.clone();
    }
    let mut i: usize = e;
    while i > 0 && path.as_str().get_char(i - 1) != '/'
        invariant
            i <= e <= n,
            n == path@.len(),
            forall|j: int| i <= j < e ==> path@[j] != '/',
        decreases i,
    {
        i -= 1;
    }
    proof {
        let b = path@.take(e as int);
        assert(forall|j: int| i <= j < e ==> b[j] == path@[j]);
        if i > 0 {
            assert(b[i - 1] == path@[i - 1]);
        }
        lemma_after_last_slash_skip(b, i as int);
        assert(b.skip(i as int) =~= path@.subrange(i as int, e as int));
    }
    path.as_str().substring_char(i, e).to_owned()
}

/// The indentation depth for a node with the given path.
fn depth_of(path: &String) -> (r: usize)
    ensures
        r == spec_depth(path@),
{
    let n = path.as_str().unicode_len();
    let mut count: usize = 0;
    let mut i: usize = 0;
    proof {
        assert(path@.take(0) =~= Seq::<char>::empty());
    }
    while i < n
        invariant
            i <= n,
            n == path@.len(),
            count == seg_count(path@.take(i as int)),
            count <= i,
        decreases n - i,
    {
        let c = path.as_str().get_char(i);
        let start = c != '/' && (i == 0 || path.as_str().get_char(i - 1) == '/');
        proof {
            let t = path@.take(i + 1);
            assert(t.drop_last() =~= path@.take(i as int));
            assert(t.last() == path@[i as int]);
            if i > 0 {
                assert(t[t.len() - 2] == path@[i - 1]);
            }
        }
        if start {
            count += 1;
        }
        i += 1;
    }
    proof {
        assert(path@.take(n as int) =~= path@);
    }
    if count == 0 {
        0
    } else {
        count - 1
    }
}

/// Looks up the fold state remembered for directory path `q`.
fn lookup_expanded(old: &Vec<TreeNode>, q: &String) -> (r: bool)
    ensures
        r == prev_expanded(old@, q@),
{
    let mut j = old.len();
    proof {
        assert(old@.take(j as int) =~= old@);
    }
    while j > 0
        invariant
            j <= old@.len(),
            prev_expanded(old@, q@) == prev_expanded(old@.take(j as int), q@),
        decreases j,
    {
        proof {
            assert(old@.take(j as int).drop_last() =~= old@.take(j - 1));
            assert(old@.take(j as int).last() == old@[j - 1]);
        }
        let node = &old[j - 1];
        if node.is_dir && node.path == *q {
            return node.expanded;
        }
        j -= 1;
    }
    true
}

proof fn lemma_insert_keeps_sorted(orig: Seq<TreeNode>, node: TreeNode, idx: int)
    requires
        sorted_unique(orig),
        0 <= idx <= orig.len(),
        forall|j: int| 0 <= j < idx ==> !lex_le(node_key(node), node_key(#[trigger] orig[j])),
        idx < orig.len() ==> lex_le(node_key(node), node_key(orig[idx])) && node_key(node)
            != node_key(orig[idx]),
    ensures
        sorted_unique(orig.insert(idx, node)),
        forall|m: NodeModel| #[trigger] contains_model(orig.insert(idx, node), m) == (
        contains_model(orig, m) || m == node_model(node)),
        forall|k: Seq<char>| #[trigger] has_key(orig.insert(idx, node), k) == (has_key(orig, k)
            || k == node_key(node)),
{
    let new = orig.insert(idx, node);
    let nk = node_key(node);
    assert forall|j: int| 0 <= j < idx implies lex_lt(node_key(orig[j]), nk) by {
        lemma_lex_total(nk, node_key(orig[j]));
    }
    assert forall|j: int| idx <= j < orig.len() implies lex_lt(nk, node_key(#[trigger] orig[j])) by {
        lemma_lex_total(nk, node_key(orig[idx]));
        if j > idx {
            assert(lex_lt(node_key(orig[idx]), node_key(orig[j])));
            lemma_lex_trans(nk, node_key(orig[idx]), node_key(orig[j]));
            if nk == node_key(orig[j]) {
                lemma_lex_antisym(nk, node_key(orig[idx]));
            }
        }
    }
    assert forall|a: int, b: int| 0 <= a < b < new.len() implies lex_lt(
        node_key(#[trigger] new[a]),
        node_key(#[trigger] new[b]),
    ) by {
        if a < idx {
            assert(new[a] == orig[a]);
        } else if a > idx {
            assert(new[a] == orig[a - 1]);
        }
        if b < idx {
            assert(new[b] == orig[b]);
        } else if b > idx {
            assert(new[b] == orig[b - 1]);
        }
    }
    assert forall|m: NodeModel| #[trigger] contains_model(new, m) == (contains_model(orig, m) || m
        == node_model(node)) by {
        if contains_model(new, m) {
            let i = choose|i: int| 0 <= i < new.len() && node_model(new[i]) == m;
            if i < idx {
                assert(new[i] == orig[i]);
                assert(contains_model(orig, m));
            } else if i == idx {
                assert(m == node_model(node));
            } else {
                assert(new[i] == orig[i - 1]);
                assert(contains_model(orig, m));
            }
        }
        if contains_model(orig, m) {
            let i = choose|i: int| 0 <= i < orig.len() && node_model(orig[i]) == m;
            if i < idx {
                assert(node_model(new[i]) == m);
            } else {
                assert(node_model(new[i + 1]) == m);
            }
            assert(contains_model(new, m));
        }
        if m == node_model(node) {
            assert(node_model(new[idx]) == m);
            assert(contains_model(new, m));
        }
    }
    assert forall|k: Seq<char>| #[trigger] has_key(new, k) == (has_key(orig, k) || k == node_key(
        node,
    )) by {
        if has_key(new, k) {
            let i = choose|i: int| 0 <= i < new.len() && node_key(new[i]) == k;
            if i < idx {
                assert(new[i] == orig[i]);
                assert(has_key(orig, k));
            } else if i == idx {
            } else {
                assert(new[i] == orig[i - 1]);
                assert(has_key(orig, k));
            }
        }
        if has_key(orig, k) {
            let i = choose|i: int| 0 <= i < orig.len() && node_key(orig[i]) == k;
            if i < idx {
                assert(node_key(new[i]) == k);
            } else {
                assert(node_key(new[i + 1]) == k);
            }
            assert(has_key(new, k));
        }
        if k == node_key(node) {
            assert(node_key(new[idx]) == k);
            assert(has_key(new, k));
        }
    }
}

proof fn lemma_update_keeps_sorted(orig: Seq<TreeNode>, node: TreeNode, idx: int)
    requires
        sorted_unique(orig),
        0 <= idx < orig.len(),
        node_key(node) == node_key(orig[idx]),
    ensures
        sorted_unique(orig.update(idx, node)),
        forall|m: NodeModel| #[trigger] contains_model(orig.update(idx, node), m) == ((
        contains_model(orig, m) && model_key(m) != node_key(node)) || m == node_model(node)),
        forall|k: Seq<char>| #[trigger] has_key(orig.update(idx, node), k) == (has_key(orig, k) || k
            == node_key(node)),
{
    let new = orig.update(idx, node);
    let nk = node_key(node);
    assert forall|a: int, b: int| 0 <= a < b < new.len() implies lex_lt(
        node_key(#[trigger] new[a]),
        node_key(#[trigger] new[b]),
    ) by {
        assert(node_key(new[a]) == node_key(orig[a]));
        assert(node_key(new[b]) == node_key(orig[b]));
    }
    assert forall|m: NodeModel| #[trigger] contains_model(new, m) == ((contains_model(orig, m)
        && model_key(m) != nk) || m == node_model(node)) by {
        if contains_model(new, m) {
            let i = choose|i: int| 0 <= i < new.len() && node_model(new[i]) == m;
            if i == idx {
                assert(m == node_model(node));
            } else {
                assert(new[i] == orig[i]);
                assert(contains_model(orig, m));
                assert(model_key(m) == node_key(orig[i]));
                assert(lex_lt(node_key(orig[i]), node_key(orig[idx])) || lex_lt(
                    node_key(orig[idx]),
                    node_key(orig[i]),
                ));
                assert(model_key(m) != nk);
            }
        }
        if contains_model(orig, m) && model_key(m) != nk {
            let i = choose|i: int| 0 <= i < orig.len() && node_model(orig[i]) == m;
            assert(model_key(m) == node_key(orig[i]));
            assert(i != idx);
            assert(node_model(new[i]) == m);
            assert(contains_model(new, m));
        }
        if m == node_model(node) {
            assert(node_model(new[idx]) == m);
            assert(contains_model(new, m));
        }
    }
    assert forall|k: Seq<char>| #[trigger] has_key(new, k) == (has_key(orig, k) || k == nk) by {
        if has_key(new, k) {
            let i = choose|i: int| 0 <= i < new.len() && node_key(new[i]) == k;
            if i == idx {
            } else {
                assert(new[i] == orig[i]);
                assert(has_key(orig, k));
            }
        }
        if has_key(orig, k) {
            let i = choose|i: int| 0 <= i < orig.len() && node_key(orig[i]) == k;
            if i == idx {
                assert(node_key(new[i]) == nk);
                assert(has_key(new, k));
            } else {
                assert(node_key(new[i]) == k);
                assert(has_key(new, k));
            }
        }
        if k == nk {
            assert(node_key(new[idx]) == k);
            assert(has_key(new, k));
        }
    }
}

proof fn lemma_no_key(orig: Seq<TreeNode>, nkv: Seq<char>, idx: int)
    requires
        sorted_unique(orig),
        0 <= idx <= orig.len(),
        forall|j: int| 0 <= j < idx ==> !lex_le(nkv, node_key(#[trigger] orig[j])),
        idx < orig.len() ==> lex_le(nkv, node_key(orig[idx])) && nkv != node_key(orig[idx]),
    ensures
        !has_key(orig, nkv),
{
    assert forall|j: int| 0 <= j < orig.len() implies node_key(#[trigger] orig[j]) != nkv by {
        if j < idx {
            if node_key(orig[j]) == nkv {
                lemma_lex_total(nkv, nkv);
            }
        } else if j > idx {
            assert(lex_lt(node_key(orig[idx]), node_key(orig[j])));
            if node_key(orig[j]) == nkv {
                lemma_lex_antisym(node_key(orig[idx]), nkv);
            }
        }
    }
}

/// Inserts `node` at its sorted position. A node with the same key is
/// replaced when `replace` is set (a file record overwrites) and kept
/// otherwise (a directory is synthesized only once).
fn insert_node(nodes: &mut Vec<TreeNode>, node: TreeNode, replace: bool)
    requires
        sorted_unique(old(nodes)@),
    ensures
        sorted_unique(final(nodes)@),
        !has_key(old(nodes)@, node_key(node)) ==> forall|m: NodeModel| #[trigger] contains_model(
            final(nodes)@,
            m,
        ) == (contains_model(old(nodes)@, m) || m == node_model(node)),
        (has_key(old(nodes)@, node_key(node)) && replace) ==> forall|m: NodeModel|
            #[trigger] contains_model(final(nodes)@, m) == ((contains_model(old(nodes)@, m)
                && model_key(m) != node_key(node)) || m == node_model(node)),
        (has_key(old(nodes)@, node_key(node)) && !replace) ==> final(nodes)@ == old(nodes)@,
        forall|k: Seq<char>| #[trigger] has_key(final(nodes)@, k) == (has_key(old(nodes)@, k) || k
            == node_key(node)),
{
    let ghost orig = nodes@;
    let ghost nkv = node_key(node);
    let nk = key_string(&node.path, node.is_dir);
    let n = nodes.len();
    let mut idx: usize = 0;
    while idx < n
        invariant
            idx <= n,
            n == nodes@.len(),
            nodes@ == orig,
            sorted_unique(orig),
            orig == old(nodes)@,
            nk@ == nkv,
            nkv == node_key(node),
            forall|j: int| 0 <= j < idx ==> !lex_le(nkv, node_key(#[trigger] orig[j])),
        decreases n - idx,
    {
        let ik = key_string(&nodes[idx].path, nodes[idx].is_dir);
        proof {
            assert(ik@ == node_key(orig[idx as int]));
        }
        if str_le(nk.as_str(), ik.as_str()) {
            if str_le(ik.as_str(), nk.as_str()) {
                proof {
                    lemma_lex_antisym(nkv, node_key(orig[idx as int]));
                }
                proof {
                    assert(node_key(orig[idx as int]) == nkv);
                    assert(has_key(orig, nkv));
                }
                if replace {
                    nodes.remove(idx);
                    nodes.insert(idx, node);
                    proof {
                        assert(nodes@ =~= orig.update(idx as int, node));
                        lemma_update_keeps_sorted(orig, node, idx as int);
                    }
                }
                return ;
            }
            proof {
                if nkv == node_key(orig[idx as int]) {
                    lemma_lex_total(nkv, nkv);
                    assert(false);
                }
                lemma_no_key(orig, nkv, idx as int);
            }
            nodes.insert(idx, node);
            proof {
                lemma_insert_keeps_sorted(orig, node, idx as int);
            }
            return ;
        }
        idx += 1;
    }
    proof {
        lemma_no_key(orig, nkv, idx as int);
    }
    nodes.insert(idx, node);
    proof {
        lemma_insert_keeps_sorted(orig, node, idx as int);
    }
}

/// `k` is the sort key of an ancestor directory of some input path.
pub open spec fn is_anc_key(files: Seq<(String, char, char)>, k: Seq<char>) -> bool {
    k.len() > 0 && k.last() == '/' && exists|i: int|
        0 <= i < files.len() && is_ancestor_prefix(k.drop_last(), (#[trigger] files[i]).0@)
}

/// The node standing at key `k` after a rebuild from `files` over the
/// earlier list `old`: a file record wins over a synthesized directory
/// with the same key.
pub open spec fn built_entry(
    files: Seq<(String, char, char)>,
    old: Seq<TreeNode>,
    k: Seq<char>,
) -> NodeModel {
    if has_file_path(files, k) {
        file_node_spec(files, k)
    } else {
        dir_node_spec(old, k.drop_last())
    }
}

/// Exactly the nodes of a rebuilt section: one per input file path and
/// one per ancestor directory, each with its determined value.
pub open spec fn built_member(
    files: Seq<(String, char, char)>,
    old: Seq<TreeNode>,
    m: NodeModel,
) -> bool {
    let k = model_key(m);
    (has_file_path(files, k) || is_anc_key(files, k)) && m == built_entry(files, old, k)
}

proof fn lemma_file_step(fv: Seq<(String, char, char)>, i: int)
    requires
        0 <= i < fv.len(),
    ensures
        forall|k: Seq<char>| k != fv[i].0@ ==> #[trigger] file_chars(fv.take(i + 1), k)
            == file_chars(fv.take(i), k),
        forall|k: Seq<char>| #[trigger] has_file_path(fv.take(i + 1), k) == (has_file_path(
            fv.take(i),
            k,
        ) || k == fv[i].0@),
        file_chars(fv.take(i + 1), fv[i].0@) == Some((fv[i].1, fv[i].2)),
{
    assert(fv.take(i + 1).drop_last() =~= fv.take(i));
    assert(fv.take(i + 1).last() == fv[i]);
    assert forall|k: Seq<char>| #[trigger] has_file_path(fv.take(i + 1), k) == (has_file_path(
        fv.take(i),
        k,
    ) || k == fv[i].0@) by {
        if has_file_path(fv.take(i + 1), k) {
            let j = choose|j: int| 0 <= j < i + 1 && (#[trigger] fv.take(i + 1)[j]).0@ == k;
            if j < i {
                assert((fv.take(i)[j]).0@ == k);
                assert(has_file_path(fv.take(i), k));
            }
        }
        if has_file_path(fv.take(i), k) {
            let j = choose|j: int| 0 <= j < i && (#[trigger] fv.take(i)[j]).0@ == k;
            assert((fv.take(i + 1)[j]).0@ == k);
            assert(has_file_path(fv.take(i + 1), k));
        }
        if k == fv[i].0@ {
            assert((fv.take(i + 1)[i]).0@ == k);
            assert(has_file_path(fv.take(i + 1), k));
        }
    }
}

/// Builds a file node for one input record.
fn mk_file_node(f_path: &String, st: char, un: char) -> (r: TreeNode)
    ensures
        node_model(r) == (NodeModel {
            path: f_path@,
            name: spec_name(f_path@, f_path@),
            depth: spec_depth(f_path@),
            is_dir: false,
            expanded: false,
            staged: st,
            unstaged: un,
        }),
        node_key(r) == f_path@,
{
    let path = f_path.clone();
    let name = name_of(&path, &path);
    let depth = depth_of(&path);
    TreeNode { path, name, depth, is_dir: false, expanded: false, staged: st, unstaged: un }
}

/// Builds a directory node for path `q`, carrying over its fold state.
fn mk_dir_node(q: String, old: &Vec<TreeNode>) -> (r: TreeNode)
    ensures
        node_model(r) == dir_node_spec(old@, q@),
        node_key(r) == q@ + seq!['/'],
{
    let key = key_string(&q, true);
    let name = name_of(&q, &key);
    let depth = depth_of(&q);
    let expanded = lookup_expanded(old, &q);
    TreeNode { path: q, name, depth, is_dir: true, expanded, staged: ' ', unstaged: ' ' }
}

/// Rebuilds a pane's node list from one status listing, keeping the
/// fold state of directories that already existed. The result is sorted
/// by key with every key appearing once, holds one file node per input
/// path (with the status characters of its last record) and one
/// directory node per ancestor prefix, and nothing else.
pub fn build_section(target_nodes: &mut Vec<TreeNode>, files: &[(String, char, char)])
    ensures
        sorted_unique(final(target_nodes)@),
        forall|m: NodeModel| #[trigger] contains_model(final(target_nodes)@, m) == built_member(
            files@,
            old(target_nodes)@,
            m,
        ),
{
    let ghost fv = files@;
    let ghost oldv = target_nodes@;
    let mut nodes: Vec<TreeNode> = Vec::new();
    let n = files.len();
    let mut i: usize = 0;
    proof {
        assert(fv.take(0) =~= Seq::<(String, char, char)>::empty());
        assert(forall|m: NodeModel| !contains_model(nodes@, m));
        assert(forall|k: Seq<char>| !has_key(nodes@, k));
        assert(forall|k: Seq<char>| !has_file_path(fv.take(0), k));
    }
    while i < n
        invariant
            i <= n,
            n == fv.len(),
            fv == files@,
            sorted_unique(nodes@),
            forall|m: NodeModel| #[trigger] contains_model(nodes@, m) == (has_file_path(
                fv.take(i as int),
                model_key(m),
            ) && m == file_node_spec(fv.take(i as int), model_key(m))),
            forall|k: Seq<char>| #[trigger] has_key(nodes@, k) == has_file_path(
                fv.take(i as int),
                k,
            ),
        decreases n - i,
    {
        let f = vstd::slice::slice_index_get(files, i);
        let node = mk_file_node(&f.0, f.1, f.2);
        let ghost pre = nodes@;
        let ghost p = fv[i as int].0@;
        insert_node(&mut nodes, node, true);
        proof {
            lemma_file_step(fv, i as int);
            assert forall|m: NodeModel| #[trigger] contains_model(nodes@, m) == (has_file_path(
                fv.take(i + 1),
                model_key(m),
            ) && m == file_node_spec(fv.take(i + 1), model_key(m))) by {
                if model_key(m) == p {
                    assert(node_model(node) == file_node_spec(fv.take(i + 1), p));
                    if contains_model(nodes@, m) {
                        if m != node_model(node) {
                            assert(contains_model(pre, m) && model_key(m) != node_key(node));
                            assert(false);
                        }
                    }
                } else {
                    assert(file_node_spec(fv.take(i + 1), model_key(m)) == file_node_spec(
                        fv.take(i as int),
                        model_key(m),
                    ));
                    if m == node_model(node) {
                        assert(model_key(m) == p);
                    }
                }
            }
            assert forall|k: Seq<char>| #[trigger] has_key(nodes@, k) == has_file_path(
                fv.take(i + 1),
                k,
            ) by {}
        }
        i += 1;
    }
    proof {
        assert(fv.take(n as int) =~= fv);
        assert forall|m: NodeModel| #[trigger] contains_model(nodes@, m) == pass2_member(
            fv,
            oldv,
            0,
            0,
            m,
        ) by {}
        assert forall|k: Seq<char>| #[trigger] has_key(nodes@, k) == pass2_key(fv, 0, 0, k) by {}
    }
    let mut j: usize = 0;
    while j < n
        invariant
            j <= n,
            n == fv.len(),
            fv == files@,
            oldv == old(target_nodes)@,
            target_nodes@ == oldv,
            sorted_unique(nodes@),
            forall|m: NodeModel| #[trigger] contains_model(nodes@, m) == pass2_member(
                fv,
                oldv,
                j as int,
                0,
                m,
            ),
            forall|k: Seq<char>| #[trigger] has_key(nodes@, k) == pass2_key(fv, j as int, 0, k),
        decreases n - j,
    {
        let f = vstd::slice::slice_index_get(files, j);
        let ghost pth = fv[j as int].0@;
        let plen = f.0.as_str().unicode_len();
        let mut b: usize = 0;
        while b < plen
            invariant
                b <= plen,
                j < n,
                n == fv.len(),
                fv == files@,
                oldv == old(target_nodes)@,
                target_nodes@ == oldv,
                pth == fv[j as int].0@,
                plen == pth.len(),
                *f == fv[j as int],
                sorted_unique(nodes@),
                forall|m: NodeModel| #[trigger] contains_model(nodes@, m) == pass2_member(
                    fv,
                    oldv,
                    j as int,
                    b as int,
                    m,
                ),
                forall|k: Seq<char>| #[trigger] has_key(nodes@, k) == pass2_key(
                    fv,
                    j as int,
                    b as int,
                    k,
                ),
            decreases plen - b,
        {
            let boundary = b > 0 && f.0.as_str().get_char(b) == '/' && f.0.as_str().get_char(b - 1)
                != '/';
            if boundary {
                let q = f.0.as_str().substring_char(0, b).to_owned();
                proof {
                    assert(q@ =~= pth.take(b as int));
                    assert(is_ancestor_prefix(q@, pth));
                }
                let node = mk_dir_node(q, target_nodes);
                let ghost qv = pth.take(b as int);
                let ghost kv = qv + seq!['/'];
                let ghost pre = nodes@;
                insert_node(&mut nodes, node, false);
                proof {
                    assert(node_key(node) == kv);
                    assert(kv.drop_last() =~= qv);
                    lemma_pass2_boundary(fv, oldv, j as int, b as int, qv);
                    if has_key(pre, kv) {
                        assert(nodes@ == pre);
                        assert forall|m: NodeModel| #[trigger] contains_model(nodes@, m)
                            == pass2_member(fv, oldv, j as int, b + 1, m) by {
                            if model_key(m) == kv {
                                assert(kv.drop_last() =~= qv);
                            } else {
                                lemma_pass2_step_keys(fv, oldv, j as int, b as int, qv, m);
                            }
                        }
                        assert forall|k: Seq<char>| #[trigger] has_key(nodes@, k) == pass2_key(
                            fv,
                            j as int,
                            b + 1,
                            k,
                        ) by {
                            if k == kv {
                                assert(kv.drop_last() =~= qv);
                            } else {
                                lemma_pass2_step_key_only(fv, j as int, b as int, qv, k);
                            }
                        }
                    } else {
                        assert(kv.drop_last() =~= qv);
                        assert(!has_file_path(fv, kv));
                        assert(!anc_upto(fv, j as int, b as int, qv));
                        assert forall|m: NodeModel| #[trigger] contains_model(nodes@, m)
                            == pass2_member(fv, oldv, j as int, b + 1, m) by {
                            if model_key(m) == kv {
                                assert(model_key(m).drop_last() =~= qv);
                                assert(node_model(node) == dir_node_spec(oldv, qv));
                            } else {
                                lemma_pass2_step_keys(fv, oldv, j as int, b as int, qv, m);
                                if m == node_model(node) {
                                    assert(model_key(m) == kv);
                                }
                            }
                        }
                        assert forall|k: Seq<char>| #[trigger] has_key(nodes@, k) == pass2_key(
                            fv,
                            j as int,
                            b + 1,
                            k,
                        ) by {
                            if k == kv {
                                assert(kv.drop_last() =~= qv);
                            } else {
                                lemma_pass2_step_key_only(fv, j as int, b as int, qv, k);
                            }
                        }
                    }
                }
            } else {
                proof {
                    assert forall|m: NodeModel| #[trigger] contains_model(nodes@, m)
                        == pass2_member(fv, oldv, j as int, b + 1, m) by {
                        lemma_pass2_nonboundary(fv, oldv, j as int, b as int, model_key(m));
                        assert(anc_upto(fv, j as int, b as int, model_key(m).drop_last())
                            == anc_upto(fv, j as int, b + 1, model_key(m).drop_last()));
                    }
                    assert forall|k: Seq<char>| #[trigger] has_key(nodes@, k) == pass2_key(
                        fv,
                        j as int,
                        b + 1,
                        k,
                    ) by {
                        lemma_pass2_nonboundary(fv, oldv, j as int, b as int, k);
                    }
                }
            }
            b += 1;
        }
        proof {
            assert forall|m: NodeModel| #[trigger] contains_model(nodes@, m) == pass2_member(
                fv,
                oldv,
                j + 1,
                0,
                m,
            ) by {
                lemma_pass2_advance(fv, oldv, j as int, model_key(m));
            }
            assert forall|k: Seq<char>| #[trigger] has_key(nodes@, k) == pass2_key(
                fv,
                j + 1,
                0,
                k,
            ) by {
                lemma_pass2_advance(fv, oldv, j as int, k);
            }
        }
        j += 1;
    }
    proof {
        assert forall|m: NodeModel| #[trigger] contains_model(nodes@, m) == built_member(
            fv,
            oldv,
            m,
        ) by {
            let k = model_key(m);
            assert(anc_upto(fv, n as int, 0, k.drop_last()) == (exists|i2: int|
                0 <= i2 < fv.len() && is_ancestor_prefix(k.drop_last(), (#[trigger] fv[i2]).0@)));
        }
    }
    *target_nodes = nodes;
}

/// `q` is an ancestor prefix already processed: of an earlier input
/// path, or of the current one at a boundary before `b`.
pub open spec fn anc_upto(fv: Seq<(String, char, char)>, j: int, b: int, q: Seq<char>) -> bool {
    (exists|j2: int| 0 <= j2 < j && is_ancestor_prefix(q, (#[trigger] fv[j2]).0@)) || (0 <= j
        < fv.len() && is_ancestor_prefix(q, fv[j].0@) && q.len() < b)
}

/// The rebuild's membership predicate part-way through: files all in,
/// directories up to file `j`, boundary `b`.
pub open spec fn pass2_member(
    fv: Seq<(String, char, char)>,
    old: Seq<TreeNode>,
    j: int,
    b: int,
    m: NodeModel,
) -> bool {
    let k = model_key(m);
    if has_file_path(fv, k) {
        m == file_node_spec(fv, k)
    } else {
        k.len() > 0 && k.last() == '/' && anc_upto(fv, j, b, k.drop_last()) && m == dir_node_spec(
            old,
            k.drop_last(),
        )
    }
}

/// The key-set predicate matching `pass2_member`.
pub open spec fn pass2_key(fv: Seq<(String, char, char)>, j: int, b: int, k: Seq<char>) -> bool {
    has_file_path(fv, k) || (k.len() > 0 && k.last() == '/' && anc_upto(fv, j, b, k.drop_last()))
}

proof fn lemma_pass2_boundary(
    fv: Seq<(String, char, char)>,
    old: Seq<TreeNode>,
    j: int,
    b: int,
    q: Seq<char>,
)
    requires
        0 <= j < fv.len(),
        q == fv[j].0@.take(b),
        is_ancestor_prefix(q, fv[j].0@),
        q.len() == b,
    ensures
        anc_upto(fv, j, b + 1, q),
{
}

proof fn lemma_pass2_step_keys(
    fv: Seq<(String, char, char)>,
    old: Seq<TreeNode>,
    j: int,
    b: int,
    q: Seq<char>,
    m: NodeModel,
)
    requires
        0 <= j < fv.len(),
        q == fv[j].0@.take(b),
        is_ancestor_prefix(q, fv[j].0@),
        q.len() == b,
        model_key(m) != q + seq!['/'],
    ensures
        pass2_member(fv, old, j, b, m) == pass2_member(fv, old, j, b + 1, m),
{
    let k = model_key(m);
    if !has_file_path(fv, k) && k.len() > 0 && k.last() == '/' {
        assert(anc_upto(fv, j, b, k.drop_last()) == anc_upto(fv, j, b + 1, k.drop_last())) by {
            if anc_upto(fv, j, b + 1, k.drop_last()) && !anc_upto(fv, j, b, k.drop_last()) {
                assert(is_ancestor_prefix(k.drop_last(), fv[j].0@) && k.drop_last().len() < b + 1);
                assert(k.drop_last().len() == b);
                assert(k.drop_last() =~= fv[j].0@.take(b));
                assert(k =~= q + seq!['/']);
            }
        }
    }
}

proof fn lemma_pass2_step_key_only(
    fv: Seq<(String, char, char)>,
    j: int,
    b: int,
    q: Seq<char>,
    k: Seq<char>,
)
    requires
        0 <= j < fv.len(),
        q == fv[j].0@.take(b),
        is_ancestor_prefix(q, fv[j].0@),
        q.len() == b,
        k != q + seq!['/'],
    ensures
        pass2_key(fv, j, b, k) == pass2_key(fv, j, b + 1, k),
{
    if !has_file_path(fv, k) && k.len() > 0 && k.last() == '/' {
        if anc_upto(fv, j, b + 1, k.drop_last()) && !anc_upto(fv, j, b, k.drop_last()) {
            assert(is_ancestor_prefix(k.drop_last(), fv[j].0@) && k.drop_last().len() < b + 1);
            assert(k.drop_last().len() == b);
            assert(k.drop_last() =~= fv[j].0@.take(b));
            assert(k =~= q + seq!['/']);
        }
    }
}

proof fn lemma_pass2_nonboundary(
    fv: Seq<(String, char, char)>,
    old: Seq<TreeNode>,
    j: int,
    b: int,
    k: Seq<char>,
)
    requires
        0 <= j < fv.len(),
        0 <= b < fv[j].0@.len(),
        !(b > 0 && fv[j].0@[b] == '/' && fv[j].0@[b - 1] != '/'),
    ensures
        forall|q: Seq<char>| #[trigger] anc_upto(fv, j, b, q) == anc_upto(fv, j, b + 1, q),
        pass2_key(fv, j, b, k) == pass2_key(fv, j, b + 1, k),
{
    let p = fv[j].0@;
    assert forall|q: Seq<char>| #[trigger] anc_upto(fv, j, b, q) == anc_upto(fv, j, b + 1, q) by {
        if anc_upto(fv, j, b + 1, q) && !anc_upto(fv, j, b, q) {
            assert(is_ancestor_prefix(q, p) && q.len() == b);
            assert(q =~= p.take(b));
            assert(p[b] == '/');
            assert(b > 0 ==> q[b - 1] == p[b - 1]);
            assert(b > 0 ==> p[b - 1] != '/');
            assert(b == 0 ==> q.len() == 0);
            assert(false);
        }
    }
}

proof fn lemma_pass2_advance(
    fv: Seq<(String, char, char)>,
    old: Seq<TreeNode>,
    j: int,
    k: Seq<char>,
)
    requires
        0 <= j < fv.len(),
    ensures
        forall|q: Seq<char>| #[trigger] anc_upto(fv, j, fv[j].0@.len() as int, q) == anc_upto(
            fv,
            j + 1,
            0,
            q,
        ),
        pass2_key(fv, j, fv[j].0@.len() as int, k) == pass2_key(fv, j + 1, 0, k),
{
    let plen = fv[j].0@.len() as int;
    assert forall|q: Seq<char>| #[trigger] anc_upto(fv, j, plen, q) == anc_upto(fv, j + 1, 0, q) by {
        if anc_upto(fv, j, plen, q) {
            if exists|j2: int| 0 <= j2 < j && is_ancestor_prefix(q, (#[trigger] fv[j2]).0@) {
                let j2 = choose|j2: int|
                    0 <= j2 < j && is_ancestor_prefix(q, (#[trigger] fv[j2]).0@);
                assert(0 <= j2 < j + 1 && is_ancestor_prefix(q, fv[j2].0@));
            } else {
                assert(is_ancestor_prefix(q, fv[j].0@));
                assert(0 <= j < j + 1 && is_ancestor_prefix(q, fv[j].0@));
            }
            assert(anc_upto(fv, j + 1, 0, q));
        }
        if anc_upto(fv, j + 1, 0, q) {
            let j2 = choose|j2: int| 0 <= j2 < j + 1 && is_ancestor_prefix(q, (#[trigger] fv[j2]).0@);
            if j2 < j {
                assert(anc_upto(fv, j, plen, q));
            } else {
                assert(is_ancestor_prefix(q, fv[j].0@));
                assert(q.len() < plen);
                assert(anc_upto(fv, j, plen, q));
            }
        }
    }
}

/// The directory node `n` hides a row with path `p`: it is a collapsed
/// proper ancestor.
pub open spec fn dir_blocks(n: TreeNode, p: Seq<char>) -> bool {
    n.is_dir && is_dir_prefix(n.path@, p) && !n.expanded
}

/// Row `i` is visible: no collapsed directory in the list is a proper
/// ancestor of its path.
pub open spec fn row_visible(nodes: Seq<TreeNode>, i: int) -> bool {
    forall|j: int| 0 <= j < nodes.len() ==> !dir_blocks(#[trigger] nodes[j], nodes[i].path@)
}

/// The visible row indices among the first `n` rows, in list order.
pub open spec fn visible_upto(nodes: Seq<TreeNode>, n: int) -> Seq<usize>
    decreases n,
{
    if n <= 0 {
        seq![]
    } else {
        visible_upto(nodes, n - 1) + if row_visible(nodes, n - 1) {
            seq![(n - 1) as usize]
        } else {
            seq![]
        }
    }
}

/// The derived visibility index of a node list.
pub open spec fn visible_of(nodes: Seq<TreeNode>) -> Seq<usize> {
    visible_upto(nodes, nodes.len() as int)
}

/// Every entry of the visibility index is a valid, strictly increasing
/// row number, and row `i` appears in it exactly when it is visible.
pub proof fn lemma_visible_upto_props(nodes: Seq<TreeNode>, n: int)
    requires
        0 <= n <= nodes.len(),
        nodes.len() <= usize::MAX,
    ensures
        forall|k: int| 0 <= k < visible_upto(nodes, n).len() ==> (#[trigger] visible_upto(nodes, n)[k]) < n,
        forall|k1: int, k2: int| 0 <= k1 < k2 < visible_upto(nodes, n).len() ==> (
        #[trigger] visible_upto(nodes, n)[k1]) < (#[trigger] visible_upto(nodes, n)[k2]),
        forall|k: int| 0 <= k < visible_upto(nodes, n).len() ==> row_visible(
            nodes,
            (#[trigger] visible_upto(nodes, n)[k]) as int,
        ),
        forall|i: int| 0 <= i < n && row_visible(nodes, i) ==> visible_upto(nodes, n).contains(
            i as usize,
        ),
    decreases n,
{
    if n > 0 {
        lemma_visible_upto_props(nodes, n - 1);
        let prev = visible_upto(nodes, n - 1);
        let cur = visible_upto(nodes, n);
        if row_visible(nodes, n - 1) {
            assert(cur =~= prev.push((n - 1) as usize));
        } else {
            assert(cur =~= prev);
        }
        assert forall|i: int| 0 <= i < n && row_visible(nodes, i) implies cur.contains(
            i as usize,
        ) by {
            if i < n - 1 {
                assert(prev.contains(i as usize));
                let k = choose|k: int| 0 <= k < prev.len() && prev[k] == i as usize;
                assert(cur[k] == i as usize);
            } else {
                assert(cur[cur.len() - 1] == i as usize);
            }
        }
    }
}

/// Row-visibility test.
fn row_visible_exec(nodes: &Vec<TreeNode>, i: usize) -> (r: bool)
    requires
        i < nodes@.len(),
    ensures
        r == row_visible(nodes@, i as int),
{
    let n = nodes.len();
    let mut j: usize = 0;
    while j < n
        invariant
            j <= n,
            n == nodes@.len(),
            i < n,
            forall|j2: int| 0 <= j2 < j ==> !dir_blocks(#[trigger] nodes@[j2], nodes@[i as int].path@),
        decreases n - j,
    {
        let nj = &nodes[j];
        if nj.is_dir && !nj.expanded && path_is_dir_prefix(nj.path.as_str(), nodes[i].path.as_str())
        {
            assert(dir_blocks(nodes@[j as int], nodes@[i as int].path@));
            return false;
        }
        j += 1;
    }
    true
}

/// Non-directory nodes in the list.
pub open spec fn count_files(nodes: Seq<TreeNode>) -> nat
    decreases nodes.len(),
{
    if nodes.len() == 0 {
        0
    } else {
        count_files(nodes.drop_last()) + if nodes.last().is_dir {
            0nat
        } else {
            1nat
        }
    }
}

/// The paths of the non-directory nodes lying under directory path `d`,
/// in list order.
pub open spec fn files_under(nodes: Seq<TreeNode>, d: Seq<char>) -> Seq<Seq<char>>
    decreases nodes.len(),
{
    if nodes.len() == 0 {
        seq![]
    } else {
        files_under(nodes.drop_last(), d) + if !nodes.last().is_dir && (nodes.last().path@ == d
            || is_dir_prefix(d, nodes.last().path@)) {
            seq![nodes.last().path@]
        } else {
            seq![]
        }
    }
}

/// One pane's tree: the full node list, the visible row indices derived
/// from the fold state, and a cursor into the visible rows.
pub struct TreeSection {
    pub all_nodes: Vec<TreeNode>,
    pub visible: Vec<usize>,
    pub cursor: usize,
}

impl TreeSection {
    /// The cursor points at a visible row, or sits at zero when nothing
    /// is visible.
    pub open spec fn cursor_ok(self) -> bool {
        self.cursor < self.visible@.len() || (self.visible@.len() == 0 && self.cursor == 0)
    }

    /// The visible list is exactly the derived visibility index.
    pub open spec fn sync(self) -> bool {
        self.visible@ == visible_of(self.all_nodes@)
    }

    /// Well-formed: visibility in sync and the cursor clamped.
    pub open spec fn wf(self) -> bool {
        self.sync() && self.cursor_ok()
    }

    /// An empty section.
    pub fn new() -> (r: TreeSection)
        ensures
            r.all_nodes@.len() == 0,
            r.visible@.len() == 0,
            r.cursor == 0,
            r.wf(),
    {
        let r = TreeSection { all_nodes: Vec::new(), visible: Vec::new(), cursor: 0 };
        proof {
            assert(r.visible@ =~= visible_of(r.all_nodes@));
        }
        r
    }

    /// The node under the cursor, when the cursor and the row index it
    /// selects are in range.
    pub fn current_node(&self) -> (r: Option<&TreeNode>)
        ensures
            match r {
                Some(n) => self.cursor < self.visible@.len() && (self.visible@[self.cursor as int])
                    < self.all_nodes@.len() && *n == self.all_nodes@[self.visible@[self.cursor as int] as int],
                None => self.cursor >= self.visible@.len() || (self.visible@[self.cursor as int])
                    >= self.all_nodes@.len(),
            },
    {
        if self.cursor < self.visible.len() {
            let idx = self.visible[self.cursor];
            if idx < self.all_nodes.len() {
                Some(&self.all_nodes[idx])
            } else {
                None
            }
        } else {
            None
        }
    }

    /// Recomputes the visible rows from the fold state. Must be called
    /// after any change to the node set or to an `expanded` flag,
    /// followed by `clamp_cursor`.
    pub fn rebuild_visible(&mut self)
        ensures
            final(self).all_nodes@ == old(self).all_nodes@,
            final(self).cursor == old(self).cursor,
            final(self).sync(),
    {
        let n = self.all_nodes.len();
        let mut vis: Vec<usize> = Vec::new();
        let mut i: usize = 0;
        proof {
            assert(vis@ =~= visible_upto(self.all_nodes@, 0));
        }
        while i < n
            invariant
                i <= n,
                n == self.all_nodes@.len(),
                vis@ == visible_upto(self.all_nodes@, i as int),
            decreases n - i,
        {
            let ghost prev = vis@;
            if row_visible_exec(&self.all_nodes, i) {
                vis.push(i);
                proof {
                    assert(vis@ =~= prev + seq![i]);
                }
            } else {
                proof {
                    assert(vis@ =~= prev + Seq::<usize>::empty());
                }
            }
            i += 1;
        }
        self.visible = vis;
    }

    /// Clamps the cursor to the last visible row, or to zero when
    /// nothing is visible.
    pub fn clamp_cursor(&mut self)
        ensures
            final(self).all_nodes@ == old(self).all_nodes@,
            final(self).visible@ == old(self).visible@,
            final(self).cursor_ok(),
            final(self).cursor == if old(self).visible@.len() == 0 {
                0
            } else if old(self).cursor >= old(self).visible@.len() {
                (old(self).visible@.len() - 1) as usize
            } else {
                old(self).cursor as usize
            },
    {
        if self.visible.len() == 0 {
            self.cursor = 0;
        } else if self.cursor >= self.visible.len() {
            self.cursor = self.visible.len() - 1;
        }
    }

    /// No visible rows.
    pub fn is_empty(&self) -> (r: bool)
        ensures
            r == (self.visible@.len() == 0),
    {
        self.visible.len() == 0
    }

    /// The number of file rows, visible or not.
    pub fn file_count(&self) -> (r: usize)
        ensures
            r == count_files(self.all_nodes@),
    {
        let n = self.all_nodes.len();
        let mut count: usize = 0;
        let mut i: usize = 0;
        proof {
            assert(self.all_nodes@.take(0) =~= Seq::<TreeNode>::empty());
        }
        while i < n
            invariant
                i <= n,
                n == self.all_nodes@.len(),
                count == count_files(self.all_nodes@.take(i as int)),
                count <= i,
            decreases n - i,
        {
            proof {
                assert(self.all_nodes@.take(i + 1).drop_last() =~= self.all_nodes@.take(i as int));
                assert(self.all_nodes@.take(i + 1).last() == self.all_nodes@[i as int]);
            }
            if !self.all_nodes[i].is_dir {
                count += 1;
            }
            i += 1;
        }
        proof {
            assert(self.all_nodes@.take(n as int) =~= self.all_nodes@);
        }
        count
    }

    /// All file paths lying under the directory path `dir_path`, used to
    /// record or un-record a whole subtree.
    pub fn files_under_dir(&self, dir_path: &str) -> (r: Vec<String>)
        ensures
            r.deep_view() == files_under(self.all_nodes@, dir_path@),
    {
        let n = self.all_nodes.len();
        let mut out: Vec<String> = Vec::new();
        let mut i: usize = 0;
        proof {
            assert(self.all_nodes@.take(0) =~= Seq::<TreeNode>::empty());
            assert(out.deep_view() =~= files_under(self.all_nodes@.take(0), dir_path@));
        }
        while i < n
            invariant
                i <= n,
                n == self.all_nodes@.len(),
                out.deep_view() == files_under(self.all_nodes@.take(i as int), dir_path@),
            decreases n - i,
        {
            proof {
                assert(self.all_nodes@.take(i + 1).drop_last() =~= self.all_nodes@.take(i as int));
                assert(self.all_nodes@.take(i + 1).last() == self.all_nodes@[i as int]);
            }
            let ghost prev = out.deep_view();
            let node = &self.all_nodes[i];
            if !node.is_dir && (crate::text::str_eq(node.path.as_str(), dir_path)
                || path_is_dir_prefix(dir_path, node.path.as_str())) {
                out.push(node.path.clone());
                proof {
                    assert(out.deep_view() =~= prev + seq![node.path@]);
                }
            } else {
                proof {
                    assert(out.deep_view() =~= prev + Seq::<Seq<char>>::empty());
                }
            }
            i += 1;
        }
        proof {
            assert(self.all_nodes@.take(n as int) =~= self.all_nodes@);
        }
        out
    }
}

/// The node list with row `d`'s fold flag set to `e`.
pub open spec fn update_expanded(nodes: Seq<TreeNode>, d: int, e: bool) -> Seq<TreeNode> {
    nodes.update(d, TreeNode { expanded: e, ..nodes[d] })
}

/// The clamped cursor for a visible-row count.
pub open spec fn clamped(c: int, len: int) -> int {
    if len == 0 {
        0
    } else if c >= len {
        len - 1
    } else {
        c
    }
}

fn set_node_expanded(nodes: &mut Vec<TreeNode>, idx: usize, e: bool)
    requires
        idx < old(nodes)@.len(),
    ensures
        final(nodes)@ == update_expanded(old(nodes)@, idx as int, e),
{
    let path = nodes[idx].path.clone();
    let name = nodes[idx].name.clone();
    let depth = nodes[idx].depth;
    let is_dir = nodes[idx].is_dir;
    let staged = nodes[idx].staged;
    let unstaged = nodes[idx].unstaged;
    let node = TreeNode { path, name, depth, is_dir, expanded: e, staged, unstaged };
    let ghost orig = nodes@;
    nodes.remove(idx);
    nodes.insert(idx, node);
    proof {
        assert(node == TreeNode { expanded: e, ..orig[idx as int] });
        assert(nodes@ =~= update_expanded(orig, idx as int, e));
    }
}

/// The index of the first directory node with path `p`, or -1.
pub open spec fn find_dir(nodes: Seq<TreeNode>, p: Seq<char>) -> int
    decreases nodes.len(),
{
    if nodes.len() == 0 {
        -1
    } else if nodes[0].is_dir && nodes[0].path@ == p {
        0
    } else {
        let r = find_dir(nodes.drop_first(), p);
        if r < 0 {
            -1
        } else {
            r + 1
        }
    }
}

proof fn lemma_find_dir_at(nodes: Seq<TreeNode>, p: Seq<char>, k: int)
    requires
        0 <= k < nodes.len(),
        nodes[k].is_dir && nodes[k].path@ == p,
        forall|j: int| 0 <= j < k ==> !((#[trigger] nodes[j]).is_dir && nodes[j].path@ == p),
    ensures
        find_dir(nodes, p) == k,
    decreases nodes.len(),
{
    if k > 0 {
        lemma_find_dir_at(nodes.drop_first(), p, k - 1);
    }
}

proof fn lemma_find_dir_none(nodes: Seq<TreeNode>, p: Seq<char>)
    requires
        forall|j: int| 0 <= j < nodes.len() ==> !((#[trigger] nodes[j]).is_dir && nodes[j].path@
            == p),
    ensures
        find_dir(nodes, p) == -1,
    decreases nodes.len(),
{
    if nodes.len() > 0 {
        lemma_find_dir_none(nodes.drop_first(), p);
    }
}

/// The text before the last separator of `s` (empty when there is
/// none).
pub open spec fn before_last_slash(s: Seq<char>) -> Seq<char>
    decreases s.len(),
{
    if s.len() == 0 {
        seq![]
    } else if s.last() == '/' {
        s.drop_last()
    } else {
        before_last_slash(s.drop_last())
    }
}

/// The parent directory path of `p`: trailing separators stripped, the
/// last segment removed, and separators before it stripped again; empty
/// when `p` has a single segment.
pub open spec fn parent_path(p: Seq<char>) -> Seq<char> {
    crate::text::drop_trailing(before_last_slash(crate::text::drop_trailing(p, '/')), '/')
}

proof fn lemma_before_last_slash_take(s: Seq<char>, k: int)
    requires
        0 <= k < s.len(),
        s[k] == '/',
        forall|j: int| k < j < s.len() ==> s[j] != '/',
    ensures
        before_last_slash(s) == s.take(k),
    decreases s.len(),
{
    if k == s.len() - 1 {
        assert(s.drop_last() =~= s.take(k));
    } else {
        assert(s.last() != '/');
        lemma_before_last_slash_take(s.drop_last(), k);
        assert(s.drop_last().take(k) =~= s.take(k));
    }
}

proof fn lemma_before_last_slash_none(s: Seq<char>)
    requires
        forall|j: int| 0 <= j < s.len() ==> s[j] != '/',
    ensures
        before_last_slash(s) == Seq::<char>::empty(),
    decreases s.len(),
{
    if s.len() > 0 {
        lemma_before_last_slash_none(s.drop_last());
    }
}

/// Computes the parent directory path of `p`.
fn parent_of(p: &str) -> (r: String)
    ensures
        r@ == parent_path(p@),
{
    let n = p.unicode_len();
    let mut e: usize = n;
    while e > 0 && p.get_char(e - 1) == '/'
        invariant
            e <= n,
            n == p@.len(),
            forall|j: int| e <= j < n ==> p@[j] == '/',
        decreases e,
    {
        e -= 1;
    }
    proof {
        if e > 0 {
            assert(p@[e - 1] != '/');
        }
        crate::text::lemma_drop_trailing_take(p@, '/', e as int);
    }
    let ghost base = p@.take(e as int);
    let mut k: usize = e;
    while k > 0 && p.get_char(k - 1) != '/'
        invariant
            k <= e <= n,
            n == p@.len(),
            forall|j: int| k <= j < e ==> p@[j] != '/',
        decreases k,
    {
        k -= 1;
    }
    if k == 0 {
        proof {
            assert(forall|j: int| 0 <= j < base.len() ==> base[j] == p@[j]);
            lemma_before_last_slash_none(base);
            assert(crate::text::drop_trailing(Seq::<char>::empty(), '/')
                =~= Seq::<char>::empty());
        }
        return String::new();
    }
    proof {
        assert(base[k - 1] == p@[k - 1]);
        assert(forall|j: int| k <= j < base.len() ==> base[j] == p@[j]);
        lemma_before_last_slash_take(base, k - 1);
        assert(base.take(k - 1) =~= p@.take(k - 1));
    }
    let ghost cut = p@.take(k - 1);
    let mut e2: usize = k - 1;
    while e2 > 0 && p.get_char(e2 - 1) == '/'
        invariant
            e2 <= k - 1 <= n,
            n == p@.len(),
            k >= 1,
            forall|j: int| e2 <= j < k - 1 ==> p@[j] == '/',
        decreases e2,
    {
        e2 -= 1;
    }
    proof {
        assert(forall|j: int| e2 <= j < cut.len() ==> cut[j] == p@[j]);
        if e2 > 0 {
            assert(cut[e2 - 1] == p@[e2 - 1]);
        }
        crate::text::lemma_drop_trailing_take(cut, '/', e2 as int);
        assert(cut.take(e2 as int) =~= p@.subrange(0, e2 as int));
    }
    p.substring_char(0, e2).to_owned()
}

/// The complement of the subtree of row `d`: visible rows that are not
/// properly under its directory path.
pub open spec fn not_under(nodes: Seq<TreeNode>, d: int) -> spec_fn(usize) -> bool {
    |u: usize| !is_dir_prefix(nodes[d].path@, nodes[u as int].path@)
}

proof fn lemma_collapse_row(nodes: Seq<TreeNode>, d: int, i: int)
    requires
        0 <= d < nodes.len(),
        nodes[d].is_dir,
        0 <= i < nodes.len(),
    ensures
        row_visible(update_expanded(nodes, d, false), i) == (row_visible(nodes, i)
            && !is_dir_prefix(nodes[d].path@, nodes[i].path@)),
{
    let new = update_expanded(nodes, d, false);
    assert(new[i].path@ == nodes[i].path@);
    if row_visible(new, i) {
        assert(!dir_blocks(new[d], new[i].path@));
        assert(!is_dir_prefix(nodes[d].path@, nodes[i].path@));
        assert forall|j: int| 0 <= j < nodes.len() implies !dir_blocks(
            #[trigger] nodes[j],
            nodes[i].path@,
        ) by {
            if j != d {
                assert(new[j] == nodes[j]);
                assert(!dir_blocks(new[j], new[i].path@));
            }
        }
    }
    if row_visible(nodes, i) && !is_dir_prefix(nodes[d].path@, nodes[i].path@) {
        assert forall|j: int| 0 <= j < new.len() implies !dir_blocks(
            #[trigger] new[j],
            new[i].path@,
        ) by {
            if j != d {
                assert(new[j] == nodes[j]);
                assert(!dir_blocks(nodes[j], nodes[i].path@));
            }
        }
    }
}

proof fn lemma_collapse_upto(nodes: Seq<TreeNode>, d: int, n: int)
    requires
        0 <= d < nodes.len(),
        nodes[d].is_dir,
        0 <= n <= nodes.len(),
        nodes.len() <= usize::MAX,
    ensures
        visible_upto(update_expanded(nodes, d, false), n) == visible_upto(nodes, n).filter(
            not_under(nodes, d),
        ),
    decreases n,
{
    broadcast use vstd::prelude::Seq::filter_distributes_over_add;

    let new = update_expanded(nodes, d, false);
    let pred = not_under(nodes, d);
    if n == 0 {
        reveal(Seq::filter);
        assert(visible_upto(nodes, 0) =~= Seq::<usize>::empty());
        assert(visible_upto(new, 0) =~= Seq::<usize>::empty());
        assert(Seq::<usize>::empty().filter(pred) =~= Seq::<usize>::empty());
    } else {
        lemma_collapse_upto(nodes, d, n - 1);
        lemma_collapse_row(nodes, d, n - 1);
        assert(((n - 1) as usize) as int == n - 1);
        let prev_old = visible_upto(nodes, n - 1);
        let unit_old: Seq<usize> = if row_visible(nodes, n - 1) {
            seq![(n - 1) as usize]
        } else {
            seq![]
        };
        assert(visible_upto(nodes, n) == prev_old + unit_old);
        assert((prev_old + unit_old).filter(pred) == prev_old.filter(pred) + unit_old.filter(
            pred,
        ));
        reveal(Seq::filter);
        if row_visible(nodes, n - 1) {
            assert(unit_old.drop_last() =~= Seq::<usize>::empty());
            assert(unit_old.last() == (n - 1) as usize);
            if pred((n - 1) as usize) {
                assert(unit_old.filter(pred) =~= seq![(n - 1) as usize]);
            } else {
                assert(unit_old.filter(pred) =~= Seq::<usize>::empty());
            }
        } else {
            assert(unit_old.filter(pred) =~= Seq::<usize>::empty());
        }
        if row_visible(new, n - 1) {
            assert(visible_upto(new, n) =~= visible_upto(new, n - 1) + seq![(n - 1) as usize]);
        } else {
            assert(visible_upto(new, n) =~= visible_upto(new, n - 1));
        }
        assert(visible_upto(new, n) =~= visible_upto(nodes, n).filter(pred));
    }
}

/// Collapsing directory row `d` removes from the visible rows exactly
/// the rows whose path is properly under `d`'s path, keeping the order
/// of the rest; and if `d` was expanded, expanding it again restores
/// the original node list, and with it the original visible rows.
pub proof fn lemma_collapse_visibility(nodes: Seq<TreeNode>, d: int)
    requires
        0 <= d < nodes.len(),
        nodes[d].is_dir,
        nodes.len() <= usize::MAX,
    ensures
        visible_of(update_expanded(nodes, d, false)) == visible_of(nodes).filter(
            not_under(nodes, d),
        ),
        nodes[d].expanded ==> update_expanded(update_expanded(nodes, d, false), d, true) == nodes,
{
    lemma_collapse_upto(nodes, d, nodes.len() as int);
    if nodes[d].expanded {
        assert(update_expanded(update_expanded(nodes, d, false), d, true) =~= nodes);
    }
}

/// What forcing the fold state of the directory at the cursor does:
/// the flag is set, the visible rows recomputed and the cursor
/// clamped; a file row or an empty pane changes nothing.
pub open spec fn set_expanded_ok(o: TreeSection, post: TreeSection, expanded: bool) -> bool {
    if o.cursor < o.visible@.len() && o.all_nodes@[o.visible@[o.cursor as int] as int].is_dir {
        let nn = update_expanded(o.all_nodes@, o.visible@[o.cursor as int] as int, expanded);
        post.all_nodes@ == nn && post.visible@ == visible_of(nn) && post.cursor == clamped(
            o.cursor as int,
            visible_of(nn).len() as int,
        )
    } else {
        post == o
    }
}

/// What collapsing the nearest ancestor directory of the row at the
/// cursor does: the first directory node carrying the parent path
/// closes and takes the cursor; rows without such an ancestor change
/// nothing.
pub open spec fn fold_parent_ok(o: TreeSection, post: TreeSection) -> bool {
    if o.cursor < o.visible@.len() && o.visible@[o.cursor as int] < o.all_nodes@.len() {
        let par = parent_path(o.all_nodes@[o.visible@[o.cursor as int] as int].path@);
        let fd = find_dir(o.all_nodes@, par);
        if par.len() == 0 || fd < 0 {
            post == o
        } else {
            let nn = update_expanded(o.all_nodes@, fd, false);
            post.all_nodes@ == nn && post.visible@ == visible_of(nn) && (if visible_of(
                nn,
            ).contains(fd as usize) {
                post.cursor < visible_of(nn).len() && visible_of(nn)[post.cursor as int] == fd
                    as usize
            } else {
                post.cursor == clamped(o.cursor as int, visible_of(nn).len() as int)
            })
        }
    } else {
        post == o
    }
}

impl TreeSection {
    /// The fold state of the directory at the cursor is forced to
    /// `expanded`; the cursor does not move beyond clamping. On a file
    /// row or an empty pane nothing changes.
    pub fn set_expanded(&mut self, expanded: bool)
        requires
            old(self).wf(),
        ensures
            final(self).wf(),
            set_expanded_ok(*old(self), *final(self), expanded),
    {
        let total = self.all_nodes.len();
        proof {
            lemma_visible_upto_props(self.all_nodes@, self.all_nodes@.len() as int);
        }
        if self.cursor < self.visible.len() {
            let idx = self.visible[self.cursor];
            assert(idx < self.all_nodes@.len());
            if self.all_nodes[idx].is_dir {
                set_node_expanded(&mut self.all_nodes, idx, expanded);
                self.rebuild_visible();
                self.clamp_cursor();
            }
        }
    }

    /// Expands the directory at the cursor and advances the cursor one
    /// row, onto the directory's first child, when such a row exists.
    pub fn expand_and_enter(&mut self)
        requires
            old(self).wf(),
        ensures
            final(self).wf(),
            ({
                let o = old(self);
                if o.cursor < o.visible@.len() && o.all_nodes@[o.visible@[o.cursor as int] as int].is_dir {
                    let nn = update_expanded(o.all_nodes@, o.visible@[o.cursor as int] as int, true);
                    final(self).all_nodes@ == nn && final(self).visible@ == visible_of(nn)
                        && final(self).cursor == (if o.cursor + 1 < visible_of(nn).len() {
                        o.cursor + 1
                    } else {
                        clamped(o.cursor as int, visible_of(nn).len() as int)
                    })
                } else {
                    *final(self) == *o
                }
            }),
    {
        let total = self.all_nodes.len();
        proof {
            lemma_visible_upto_props(self.all_nodes@, self.all_nodes@.len() as int);
        }
        let cursor_vis_idx = self.cursor;
        if cursor_vis_idx >= self.visible.len() {
            return ;
        }
        let node_idx = self.visible[cursor_vis_idx];
        assert(node_idx < self.all_nodes@.len());
        if !self.all_nodes[node_idx].is_dir {
            return ;
        }
        set_node_expanded(&mut self.all_nodes, node_idx, true);
        self.rebuild_visible();
        self.clamp_cursor();
        if cursor_vis_idx + 1 < self.visible.len() {
            self.cursor = cursor_vis_idx + 1;
        }
    }

    /// Collapses the nearest ancestor directory of the row at the
    /// cursor and moves the cursor onto that directory's row. Nothing
    /// changes when the row has no parent directory in the list.
    pub fn fold_parent(&mut self)
        requires
            old(self).wf(),
        ensures
            final(self).wf(),
            fold_parent_ok(*old(self), *final(self)),
    {
        let current_path = match self.current_node() {
            Some(n) => n.path.clone(),
            None => {
                return ;
            },
        };
        let parent = parent_of(current_path.as_str());
        if parent.as_str().unicode_len() == 0 {
            return ;
        }
        let n = self.all_nodes.len();
        let mut i: usize = 0;
        while i < n
            invariant
                i <= n,
                n == self.all_nodes@.len(),
                old(self).wf(),
                *self == *old(self),
                parent@ == parent_path(
                    old(self).all_nodes@[old(self).visible@[old(self).cursor as int] as int].path@,
                ),
                parent@.len() > 0,
                old(self).cursor < old(self).visible@.len(),
                old(self).visible@[old(self).cursor as int] < old(self).all_nodes@.len(),
                forall|j: int| 0 <= j < i ==> !((#[trigger] self.all_nodes@[j]).is_dir
                    && self.all_nodes@[j].path@ == parent@),
            decreases n - i,
        {
            let is_hit = self.all_nodes[i].is_dir && crate::text::str_eq(
                self.all_nodes[i].path.as_str(),
                parent.as_str(),
            );
            if is_hit {
                proof {
                    lemma_find_dir_at(self.all_nodes@, parent@, i as int);
                }
                set_node_expanded(&mut self.all_nodes, i, false);
                self.rebuild_visible();
                let ghost nn = self.all_nodes@;
                proof {
                    lemma_visible_upto_props(nn, nn.len() as int);
                }
                let vn = self.visible.len();
                let mut pos: usize = 0;
                while pos < vn
                    invariant
                        pos <= vn,
                        vn == self.visible@.len(),
                        self.visible@ == visible_of(nn),
                        nn == self.all_nodes@,
                        i < nn.len(),
                        old(self).wf(),
                        old(self).cursor < old(self).visible@.len(),
                        old(self).visible@[old(self).cursor as int] < old(self).all_nodes@.len(),
                        parent@ == parent_path(
                            old(self).all_nodes@[old(self).visible@[old(self).cursor as int] as int].path@,
                        ),
                        parent@.len() > 0,
                        find_dir(old(self).all_nodes@, parent@) == i as int,
                        nn == update_expanded(old(self).all_nodes@, i as int, false),
                        self.cursor == old(self).cursor,
                        forall|k: int| 0 <= k < pos ==> self.visible@[k] != i as usize,
                    decreases vn - pos,
                {
                    if self.visible[pos] == i {
                        self.cursor = pos;
                        self.clamp_cursor();
                        proof {
                            assert(visible_of(nn).contains(i as usize));
                        }
                        return ;
                    }
                    pos += 1;
                }
                proof {
                    if visible_of(nn).contains(i as usize) {
                        let k = choose|k: int|
                            0 <= k < visible_of(nn).len() && visible_of(nn)[k] == i as usize;
                        assert(false);
                    }
                }
                self.clamp_cursor();
                return ;
            }
            i += 1;
        }
        proof {
            lemma_find_dir_none(self.all_nodes@, parent@);
        }
    }
}

/// Recomputes a section's visible rows and clamps its cursor.
pub fn rebuild_section_visible(section: &mut TreeSection)
    ensures
        final(section).all_nodes@ == old(section).all_nodes@,
        final(section).wf(),
        final(section).cursor == clamped(
            old(section).cursor as int,
            visible_of(old(section).all_nodes@).len() as int,
        ),
{
    section.rebuild_visible();
    section.clamp_cursor();
}

} // verus!
