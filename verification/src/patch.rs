//! Synthesis of minimal, numerically self-consistent unified-diff
//! fragments for a chosen subset of one hunk's lines.
//!
//! The forward builder records a subset of a hunk (staging); the reverse
//! builder un-records a subset of an already-recorded hunk (unstaging).
//! The two are intentionally independent constructions: the treatment of
//! selected and unselected lines is not symmetric, so the reverse patch
//! is not the forward patch negated.

use vstd::prelude::*;

verus! {

use std::collections::HashSet;
use crate::diff::{DiffLine, Hunk, line_text};
use crate::text::{dec_str, dec_of_usize};
use vstd::string::StringExecFns;

broadcast use vstd::std_specs::hash::group_hash_axioms;

/// The selected line indices, as a set of mathematical integers.
pub open spec fn sel_of(s: Set<usize>) -> Set<int> {
    Set::new(|i: int| 0 <= i <= usize::MAX && s.contains(i as usize))
}

/// The `' '`/`'+'`/`'-'` prefix of a rendered body line.
pub open spec fn prefix_char(l: DiffLine) -> char {
    match l {
        DiffLine::Context(_) => ' ',
        DiffLine::Added(_) => '+',
        DiffLine::Removed(_) => '-',
    }
}

/// One rendered body line: prefix, text, newline.
pub open spec fn rendered_line(l: DiffLine) -> Seq<char> {
    seq![prefix_char(l)] + line_text(l) + seq!['\n']
}

/// The rendered body of a patch fragment.
pub open spec fn body_text(body: Seq<DiffLine>) -> Seq<char>
    decreases body.len(),
{
    if body.len() == 0 {
        seq![]
    } else {
        body_text(body.drop_last()) + rendered_line(body.last())
    }
}

/// The two file-name header lines of a patch.
pub open spec fn file_header_text(file: Seq<char>) -> Seq<char> {
    "--- a/"@ + file + "\n"@ + "+++ b/"@ + file + "\n"@
}

/// The `@@` header line of a patch fragment.
pub open spec fn hunk_header_text(os: nat, oc: nat, ns: nat, nc: nat) -> Seq<char> {
    "@@ -"@ + dec_str(os) + ","@ + dec_str(oc) + " +"@ + dec_str(ns) + ","@ + dec_str(nc)
        + " @@\n"@
}

/// A whole patch fragment: file header, hunk header, body.
pub open spec fn patch_text(file: Seq<char>, os: nat, oc: nat, ns: nat, nc: nat, body: Seq<
    DiffLine,
>) -> Seq<char> {
    file_header_text(file) + hunk_header_text(os, oc, ns, nc) + body_text(body)
}

/// Lines counted on the old side of a body: context and removed.
pub open spec fn old_side_count(body: Seq<DiffLine>) -> nat
    decreases body.len(),
{
    if body.len() == 0 {
        0
    } else {
        old_side_count(body.drop_last()) + if body.last() is Added {
            0nat
        } else {
            1nat
        }
    }
}

/// Lines counted on the new side of a body: context and added.
pub open spec fn new_side_count(body: Seq<DiffLine>) -> nat
    decreases body.len(),
{
    if body.len() == 0 {
        0
    } else {
        new_side_count(body.drop_last()) + if body.last() is Removed {
            0nat
        } else {
            1nat
        }
    }
}

/// What one source line contributes to a forward (record) body:
/// context stays context; a selected added line is kept; an unselected
/// added line is dropped; a selected removed line is kept; an unselected
/// removed line is rewritten as context, since it must stay unchanged
/// relative to the prior recorded state.
pub open spec fn forward_line(l: DiffLine, selected: bool) -> Seq<DiffLine> {
    match l {
        DiffLine::Context(s) => seq![DiffLine::Context(s)],
        DiffLine::Added(s) => if selected {
            seq![DiffLine::Added(s)]
        } else {
            seq![]
        },
        DiffLine::Removed(s) => if selected {
            seq![DiffLine::Removed(s)]
        } else {
            seq![DiffLine::Context(s)]
        },
    }
}

/// The body of a forward partial patch for the selection `sel`.
pub open spec fn forward_body(lines: Seq<DiffLine>, sel: Set<int>) -> Seq<DiffLine>
    decreases lines.len(),
{
    if lines.len() == 0 {
        seq![]
    } else {
        forward_body(lines.drop_last(), sel) + forward_line(
            lines.last(),
            sel.contains(lines.len() - 1),
        )
    }
}

/// What one source line contributes to a reverse (un-record) body:
/// context stays context; a selected added line (content currently
/// recorded) becomes removed; an unselected added line is kept in the
/// recorded state as context; a selected removed line is restored as
/// added; an unselected removed line is dropped and not restored.
pub open spec fn reverse_line(l: DiffLine, selected: bool) -> Seq<DiffLine> {
    match l {
        DiffLine::Context(s) => seq![DiffLine::Context(s)],
        DiffLine::Added(s) => if selected {
            seq![DiffLine::Removed(s)]
        } else {
            seq![DiffLine::Context(s)]
        },
        DiffLine::Removed(s) => if selected {
            seq![DiffLine::Added(s)]
        } else {
            seq![]
        },
    }
}

/// The body of a reverse partial patch for the selection `sel`.
pub open spec fn reverse_body(lines: Seq<DiffLine>, sel: Set<int>) -> Seq<DiffLine>
    decreases lines.len(),
{
    if lines.len() == 0 {
        seq![]
    } else {
        reverse_body(lines.drop_last(), sel) + reverse_line(
            lines.last(),
            sel.contains(lines.len() - 1),
        )
    }
}

/// Context lines in `lines`.
pub open spec fn count_context(lines: Seq<DiffLine>) -> nat
    decreases lines.len(),
{
    if lines.len() == 0 {
        0
    } else {
        count_context(lines.drop_last()) + if lines.last() is Context {
            1nat
        } else {
            0nat
        }
    }
}

/// Added lines in `lines`.
pub open spec fn count_added(lines: Seq<DiffLine>) -> nat
    decreases lines.len(),
{
    if lines.len() == 0 {
        0
    } else {
        count_added(lines.drop_last()) + if lines.last() is Added {
            1nat
        } else {
            0nat
        }
    }
}

/// Removed lines in `lines`.
pub open spec fn count_removed(lines: Seq<DiffLine>) -> nat
    decreases lines.len(),
{
    if lines.len() == 0 {
        0
    } else {
        count_removed(lines.drop_last()) + if lines.last() is Removed {
            1nat
        } else {
            0nat
        }
    }
}

/// Added lines of `lines` whose index is in `sel`.
pub open spec fn count_sel_added(lines: Seq<DiffLine>, sel: Set<int>) -> nat
    decreases lines.len(),
{
    if lines.len() == 0 {
        0
    } else {
        count_sel_added(lines.drop_last(), sel) + if lines.last() is Added && sel.contains(
            lines.len() - 1,
        ) {
            1nat
        } else {
            0nat
        }
    }
}

/// Removed lines of `lines` whose index is in `sel`.
pub open spec fn count_sel_removed(lines: Seq<DiffLine>, sel: Set<int>) -> nat
    decreases lines.len(),
{
    if lines.len() == 0 {
        0
    } else {
        count_sel_removed(lines.drop_last(), sel) + if lines.last() is Removed && sel.contains(
            lines.len() - 1,
        ) {
            1nat
        } else {
            0nat
        }
    }
}

/// Added lines of `lines` whose index is not in `sel`.
pub open spec fn count_unsel_added(lines: Seq<DiffLine>, sel: Set<int>) -> nat
    decreases lines.len(),
{
    if lines.len() == 0 {
        0
    } else {
        count_unsel_added(lines.drop_last(), sel) + if lines.last() is Added && !sel.contains(
            lines.len() - 1,
        ) {
            1nat
        } else {
            0nat
        }
    }
}

/// Removed lines of `lines` whose index is not in `sel`.
pub open spec fn count_unsel_removed(lines: Seq<DiffLine>, sel: Set<int>) -> nat
    decreases lines.len(),
{
    if lines.len() == 0 {
        0
    } else {
        count_unsel_removed(lines.drop_last(), sel) + if lines.last() is Removed && !sel.contains(
            lines.len() - 1,
        ) {
            1nat
        } else {
            0nat
        }
    }
}

proof fn lemma_counts_single(l: DiffLine)
    ensures
        count_context(seq![l]) == if l is Context {
            1nat
        } else {
            0nat
        },
        count_added(seq![l]) == if l is Added {
            1nat
        } else {
            0nat
        },
        count_removed(seq![l]) == if l is Removed {
            1nat
        } else {
            0nat
        },
{
    assert(seq![l].drop_last() =~= Seq::<DiffLine>::empty());
    assert(count_context(Seq::<DiffLine>::empty()) == 0);
    assert(count_added(Seq::<DiffLine>::empty()) == 0);
    assert(count_removed(Seq::<DiffLine>::empty()) == 0);
}

proof fn lemma_counts_concat_unit(b: Seq<DiffLine>, u: Seq<DiffLine>)
    requires
        u.len() <= 1,
    ensures
        count_context(b + u) == count_context(b) + count_context(u),
        count_added(b + u) == count_added(b) + count_added(u),
        count_removed(b + u) == count_removed(b) + count_removed(u),
{
    if u.len() == 0 {
        assert(b + u =~= b);
    } else {
        let l = u[0];
        assert(u =~= seq![l]);
        assert(b + u =~= b.push(l));
        assert(b.push(l).drop_last() =~= b);
        lemma_counts_single(l);
    }
}

/// Old and new side counts of any body, in terms of its line kinds: the
/// old side holds context and removed lines, the new side context and
/// added lines.
pub proof fn lemma_side_counts(body: Seq<DiffLine>)
    ensures
        old_side_count(body) == count_context(body) + count_removed(body),
        new_side_count(body) == count_context(body) + count_added(body),
    decreases body.len(),
{
    if body.len() > 0 {
        lemma_side_counts(body.drop_last());
    }
}

/// The header-count law for the forward builder: the emitted added lines
/// are exactly the selected added lines, the emitted removed lines
/// exactly the selected removed lines, and the emitted context lines the
/// source context lines plus the unselected removed lines rewritten as
/// context. Hence `old_count` is the emitted context plus the selected
/// removed lines, and `new_count` the emitted context plus the selected
/// added lines.
pub proof fn lemma_forward_patch_counts(lines: Seq<DiffLine>, sel: Set<int>)
    ensures
        count_added(forward_body(lines, sel)) == count_sel_added(lines, sel),
        count_removed(forward_body(lines, sel)) == count_sel_removed(lines, sel),
        count_context(forward_body(lines, sel)) == count_context(lines) + count_unsel_removed(
            lines,
            sel,
        ),
        old_side_count(forward_body(lines, sel)) == count_context(lines) + count_unsel_removed(
            lines,
            sel,
        ) + count_sel_removed(lines, sel),
        new_side_count(forward_body(lines, sel)) == count_context(lines) + count_unsel_removed(
            lines,
            sel,
        ) + count_sel_added(lines, sel),
    decreases lines.len(),
{
    lemma_side_counts(forward_body(lines, sel));
    if lines.len() > 0 {
        lemma_forward_patch_counts(lines.drop_last(), sel);
        let u = forward_line(lines.last(), sel.contains(lines.len() - 1));
        lemma_counts_concat_unit(forward_body(lines.drop_last(), sel), u);
        match lines.last() {
            DiffLine::Context(s) => {
                lemma_counts_single(DiffLine::Context(s));
            },
            DiffLine::Added(s) => {
                if sel.contains(lines.len() - 1) {
                    lemma_counts_single(DiffLine::Added(s));
                }
            },
            DiffLine::Removed(s) => {
                if sel.contains(lines.len() - 1) {
                    lemma_counts_single(DiffLine::Removed(s));
                } else {
                    lemma_counts_single(DiffLine::Context(s));
                }
            },
        }
    }
}

/// The header-count law for the reverse builder: the added and removed
/// roles are swapped against the forward builder. The emitted removed
/// lines are exactly the selected added lines, the emitted added lines
/// exactly the selected removed lines, and the emitted context lines the
/// source context lines plus the unselected added lines kept as context.
pub proof fn lemma_reverse_patch_counts(lines: Seq<DiffLine>, sel: Set<int>)
    ensures
        count_removed(reverse_body(lines, sel)) == count_sel_added(lines, sel),
        count_added(reverse_body(lines, sel)) == count_sel_removed(lines, sel),
        count_context(reverse_body(lines, sel)) == count_context(lines) + count_unsel_added(
            lines,
            sel,
        ),
        old_side_count(reverse_body(lines, sel)) == count_context(lines) + count_unsel_added(
            lines,
            sel,
        ) + count_sel_added(lines, sel),
        new_side_count(reverse_body(lines, sel)) == count_context(lines) + count_unsel_added(
            lines,
            sel,
        ) + count_sel_removed(lines, sel),
    decreases lines.len(),
{
    lemma_side_counts(reverse_body(lines, sel));
    if lines.len() > 0 {
        lemma_reverse_patch_counts(lines.drop_last(), sel);
        let u = reverse_line(lines.last(), sel.contains(lines.len() - 1));
        lemma_counts_concat_unit(reverse_body(lines.drop_last(), sel), u);
        match lines.last() {
            DiffLine::Context(s) => {
                lemma_counts_single(DiffLine::Context(s));
            },
            DiffLine::Added(s) => {
                if sel.contains(lines.len() - 1) {
                    lemma_counts_single(DiffLine::Removed(s));
                } else {
                    lemma_counts_single(DiffLine::Context(s));
                }
            },
            DiffLine::Removed(s) => {
                if sel.contains(lines.len() - 1) {
                    lemma_counts_single(DiffLine::Added(s));
                }
            },
        }
    }
}

/// Selecting every line reduces the forward builder to the full hunk:
/// the emitted body is the source hunk's line list itself.
pub proof fn lemma_full_selection_forward(lines: Seq<DiffLine>, sel: Set<int>)
    requires
        forall|i: int| 0 <= i < lines.len() ==> sel.contains(i),
    ensures
        forward_body(lines, sel) == lines,
    decreases lines.len(),
{
    if lines.len() > 0 {
        lemma_full_selection_forward(lines.drop_last(), sel);
        assert(forward_line(lines.last(), true) =~= seq![lines.last()]);
        assert(lines.drop_last() + seq![lines.last()] =~= lines);
    }
}

/// An empty selection yields a context-only no-op body from the forward
/// builder: nothing is added and nothing is removed.
pub proof fn lemma_empty_selection_forward(lines: Seq<DiffLine>, sel: Set<int>)
    requires
        forall|i: int| 0 <= i < lines.len() ==> !sel.contains(i),
    ensures
        count_added(forward_body(lines, sel)) == 0,
        count_removed(forward_body(lines, sel)) == 0,
    decreases lines.len(),
{
    lemma_forward_patch_counts(lines, sel);
    if lines.len() > 0 {
        lemma_empty_selection_forward(lines.drop_last(), sel);
        lemma_forward_patch_counts(lines.drop_last(), sel);
    }
}

proof fn lemma_body_push(b: Seq<DiffLine>, l: DiffLine)
    ensures
        body_text(b.push(l)) == body_text(b) + rendered_line(l),
        old_side_count(b.push(l)) == old_side_count(b) + if l is Added {
            0nat
        } else {
            1nat
        },
        new_side_count(b.push(l)) == new_side_count(b) + if l is Removed {
            0nat
        } else {
            1nat
        },
{
    assert(b.push(l).drop_last() =~= b);
    assert(b.push(l).last() == l);
}

proof fn lemma_body_concat_unit(b: Seq<DiffLine>, u: Seq<DiffLine>)
    requires
        u.len() <= 1,
    ensures
        body_text(b + u) == body_text(b) + body_text(u),
        old_side_count(b + u) == old_side_count(b) + old_side_count(u),
        new_side_count(b + u) == new_side_count(b) + new_side_count(u),
{
    if u.len() == 0 {
        assert(b + u =~= b);
        assert(body_text(b) + body_text(u) =~= body_text(b));
    } else {
        let l = u[0];
        assert(b + u =~= b.push(l));
        assert(u =~= Seq::empty().push(l));
        lemma_body_push(b, l);
        lemma_body_push(Seq::empty(), l);
        assert(body_text(Seq::<DiffLine>::empty()) + rendered_line(l) =~= rendered_line(l));
    }
}

fn append_line(patch: &mut String, prefix: &str, text: &String)
    requires
        prefix@.len() == 1,
    ensures
        final(patch)@ == old(patch)@ + prefix@ + text@ + "\n"@,
{
    patch.append(prefix);
    patch.append(text.as_str());
    patch.append("\n");
}

/// Appends the rendered form of one body line.
fn push_rendered(patch: &mut String, l: &DiffLine)
    ensures
        final(patch)@ == old(patch)@ + rendered_line(*l),
{
    proof {
        reveal_strlit(" ");
        reveal_strlit("+");
        reveal_strlit("-");
        reveal_strlit("\n");
    }
    match l {
        DiffLine::Context(s) => {
            append_line(patch, " ", s);
            assert(old(patch)@ + " "@ + s@ + "\n"@ =~= old(patch)@ + rendered_line(*l));
        },
        DiffLine::Added(s) => {
            append_line(patch, "+", s);
            assert(old(patch)@ + "+"@ + s@ + "\n"@ =~= old(patch)@ + rendered_line(*l));
        },
        DiffLine::Removed(s) => {
            append_line(patch, "-", s);
            assert(old(patch)@ + "-"@ + s@ + "\n"@ =~= old(patch)@ + rendered_line(*l));
        },
    }
}

/// Appends `--- a/<file>` and `+++ b/<file>` lines.
fn push_file_header(patch: &mut String, file_path: &str)
    ensures
        final(patch)@ == old(patch)@ + file_header_text(file_path@),
{
    patch.append("--- a/");
    patch.append(file_path);
    patch.append("\n");
    patch.append("+++ b/");
    patch.append(file_path);
    patch.append("\n");
    assert(final(patch)@ =~= old(patch)@ + file_header_text(file_path@));
}

/// Appends a 4-field `@@` header line.
fn push_hunk_header(patch: &mut String, os: u32, oc: usize, ns: u32, nc: usize)
    ensures
        final(patch)@ == old(patch)@ + hunk_header_text(os as nat, oc as nat, ns as nat, nc as nat),
{
    patch.append("@@ -");
    let s1 = dec_of_usize(os as usize);
    patch.append(s1.as_str());
    patch.append(",");
    let s2 = dec_of_usize(oc);
    patch.append(s2.as_str());
    patch.append(" +");
    let s3 = dec_of_usize(ns as usize);
    patch.append(s3.as_str());
    patch.append(",");
    let s4 = dec_of_usize(nc);
    patch.append(s4.as_str());
    patch.append(" @@\n");
    assert(final(patch)@ =~= old(patch)@ + hunk_header_text(
        os as nat,
        oc as nat,
        ns as nat,
        nc as nat,
    ));
}

/// Emits the hunk verbatim, with its original header counts; used for
/// whole-hunk record and un-record. The body is byte-identical to the
/// source hunk's lines and the header counts are the source hunk's own.
pub fn build_hunk_patch(file_path: &str, hunk: &Hunk) -> (r: String)
    ensures
        r@ == patch_text(
            file_path@,
            hunk.old_start as nat,
            hunk.old_count as nat,
            hunk.new_start as nat,
            hunk.new_count as nat,
            hunk.lines@,
        ),
{
    let mut patch = String::new();
    push_file_header(&mut patch, file_path);
    push_hunk_header(&mut patch, hunk.old_start, hunk.old_count as usize, hunk.new_start,
        hunk.new_count as usize);
    let ghost head = patch@;
    let mut i: usize = 0;
    let n = hunk.lines.len();
    proof {
        assert(hunk.lines@.take(0) =~= Seq::<DiffLine>::empty());
        assert(head + body_text(hunk.lines@.take(0)) =~= head);
    }
    while i < n
        invariant
            i <= n,
            n == hunk.lines@.len(),
            patch@ == head + body_text(hunk.lines@.take(i as int)),
        decreases n - i,
    {
        push_rendered(&mut patch, &hunk.lines[i]);
        proof {
            let ghost l = hunk.lines@[i as int];
            assert(hunk.lines@.take(i + 1) =~= hunk.lines@.take(i as int).push(l));
            lemma_body_push(hunk.lines@.take(i as int), l);
        }
        i += 1;
    }
    proof {
        assert(hunk.lines@.take(n as int) =~= hunk.lines@);
    }
    patch
}

/// Tests whether line index `i` is selected.
fn is_selected(selected: &HashSet<usize>, i: usize) -> (r: bool)
    ensures
        r == sel_of(selected@).contains(i as int),
{
    selected.contains(&i)
}

/// Builds the forward partial patch that records exactly the selected
/// lines of `hunk`: the emitted body is `forward_body`, the header
/// counts are recomputed from that body, and the start offsets are the
/// source hunk's own.
pub fn build_partial_patch(file_path: &str, hunk: &Hunk, selected: &HashSet<usize>) -> (r: String)
    ensures
        r@ == patch_text(
            file_path@,
            hunk.old_start as nat,
            old_side_count(forward_body(hunk.lines@, sel_of(selected@))),
            hunk.new_start as nat,
            new_side_count(forward_body(hunk.lines@, sel_of(selected@))),
            forward_body(hunk.lines@, sel_of(selected@)),
        ),
{
    let ghost sel = sel_of(selected@);
    let mut body = String::new();
    let mut old_count: usize = 0;
    let mut new_count: usize = 0;
    let mut i: usize = 0;
    let n = hunk.lines.len();
    proof {
        assert(hunk.lines@.take(0) =~= Seq::<DiffLine>::empty());
    }
    while i < n
        invariant
            i <= n,
            n == hunk.lines@.len(),
            sel == sel_of(selected@),
            body@ == body_text(forward_body(hunk.lines@.take(i as int), sel)),
            old_count == old_side_count(forward_body(hunk.lines@.take(i as int), sel)),
            new_count == new_side_count(forward_body(hunk.lines@.take(i as int), sel)),
            old_count <= i,
            new_count <= i,
        decreases n - i,
    {
        let ghost prev = forward_body(hunk.lines@.take(i as int), sel);
        let ghost l = hunk.lines@[i as int];
        let sel_i = is_selected(selected, i);
        proof {
            assert(hunk.lines@.take(i + 1) =~= hunk.lines@.take(i as int).push(l));
            assert(hunk.lines@.take(i + 1).drop_last() =~= hunk.lines@.take(i as int));
            assert(forward_body(hunk.lines@.take(i + 1), sel) == prev + forward_line(l, sel_i));
            lemma_body_concat_unit(prev, forward_line(l, sel_i));
        }
        match &hunk.lines[i] {
            DiffLine::Context(_) => {
                push_rendered(&mut body, &hunk.lines[i]);
                old_count += 1;
                new_count += 1;
                proof {
                    assert(forward_line(l, sel_i) =~= Seq::empty().push(l));
                    lemma_body_push(Seq::empty(), l);
                    assert(body_text(Seq::<DiffLine>::empty()) + rendered_line(l)
                        =~= rendered_line(l));
                }
            },
            DiffLine::Added(_) => {
                if sel_i {
                    push_rendered(&mut body, &hunk.lines[i]);
                    new_count += 1;
                    proof {
                        assert(forward_line(l, sel_i) =~= Seq::empty().push(l));
                        lemma_body_push(Seq::empty(), l);
                        assert(body_text(Seq::<DiffLine>::empty()) + rendered_line(l)
                            =~= rendered_line(l));
                    }
                } else {
                    proof {
                        assert(body@ + body_text(forward_line(l, sel_i)) =~= body@);
                    }
                }
            },
            DiffLine::Removed(s) => {
                if sel_i {
                    push_rendered(&mut body, &hunk.lines[i]);
                    old_count += 1;
                    proof {
                        assert(forward_line(l, sel_i) =~= Seq::empty().push(l));
                        lemma_body_push(Seq::empty(), l);
                        assert(body_text(Seq::<DiffLine>::empty()) + rendered_line(l)
                            =~= rendered_line(l));
                    }
                } else {
                    let ctx = DiffLine::Context(s.clone());
                    push_rendered(&mut body, &ctx);
                    old_count += 1;
                    new_count += 1;
                    proof {
                        assert(forward_line(l, sel_i) =~= Seq::empty().push(ctx));
                        lemma_body_push(Seq::empty(), ctx);
                        assert(body_text(Seq::<DiffLine>::empty()) + rendered_line(ctx)
                            =~= rendered_line(ctx));
                    }
                }
            },
        }
        i += 1;
    }
    proof {
        assert(hunk.lines@.take(n as int) =~= hunk.lines@);
    }
    let mut patch = String::new();
    push_file_header(&mut patch, file_path);
    push_hunk_header(&mut patch, hunk.old_start, old_count, hunk.new_start, new_count);
    patch.append(body.as_str());
    patch
}

/// Builds the reverse partial patch that un-records exactly the
/// selected lines of an already-recorded hunk. Both header offsets
/// anchor on the source hunk's new-side start, because the patch's
/// reference frame is the current recorded content.
pub fn build_reverse_partial_patch(file_path: &str, hunk: &Hunk, selected: &HashSet<usize>) -> (r:
    String)
    ensures
        r@ == patch_text(
            file_path@,
            hunk.new_start as nat,
            old_side_count(reverse_body(hunk.lines@, sel_of(selected@))),
            hunk.new_start as nat,
            new_side_count(reverse_body(hunk.lines@, sel_of(selected@))),
            reverse_body(hunk.lines@, sel_of(selected@)),
        ),
{
    let ghost sel = sel_of(selected@);
    let mut body = String::new();
    let mut old_count: usize = 0;
    let mut new_count: usize = 0;
    let mut i: usize = 0;
    let n = hunk.lines.len();
    proof {
        assert(hunk.lines@.take(0) =~= Seq::<DiffLine>::empty());
    }
    while i < n
        invariant
            i <= n,
            n == hunk.lines@.len(),
            sel == sel_of(selected@),
            body@ == body_text(reverse_body(hunk.lines@.take(i as int), sel)),
            old_count == old_side_count(reverse_body(hunk.lines@.take(i as int), sel)),
            new_count == new_side_count(reverse_body(hunk.lines@.take(i as int), sel)),
            old_count <= i,
            new_count <= i,
        decreases n - i,
    {
        let ghost prev = reverse_body(hunk.lines@.take(i as int), sel);
        let ghost l = hunk.lines@[i as int];
        let sel_i = is_selected(selected, i);
        proof {
            assert(hunk.lines@.take(i + 1) =~= hunk.lines@.take(i as int).push(l));
            assert(hunk.lines@.take(i + 1).drop_last() =~= hunk.lines@.take(i as int));
            assert(reverse_body(hunk.lines@.take(i + 1), sel) == prev + reverse_line(l, sel_i));
            lemma_body_concat_unit(prev, reverse_line(l, sel_i));
        }
        match &hunk.lines[i] {
            DiffLine::Context(_) => {
                push_rendered(&mut body, &hunk.lines[i]);
                old_count += 1;
                new_count += 1;
                proof {
                    assert(reverse_line(l, sel_i) =~= Seq::empty().push(l));
                    lemma_body_push(Seq::empty(), l);
                    assert(body_text(Seq::<DiffLine>::empty()) + rendered_line(l)
                        =~= rendered_line(l));
                }
            },
            DiffLine::Added(s) => {
                if sel_i {
                    let rem = DiffLine::Removed(s.clone());
                    push_rendered(&mut body, &rem);
                    old_count += 1;
                    proof {
                        assert(reverse_line(l, sel_i) =~= Seq::empty().push(rem));
                        lemma_body_push(Seq::empty(), rem);
                        assert(body_text(Seq::<DiffLine>::empty()) + rendered_line(rem)
                            =~= rendered_line(rem));
                    }
                } else {
                    let ctx = DiffLine::Context(s.clone());
                    push_rendered(&mut body, &ctx);
                    old_count += 1;
                    new_count += 1;
                    proof {
                        assert(reverse_line(l, sel_i) =~= Seq::empty().push(ctx));
                        lemma_body_push(Seq::empty(), ctx);
                        assert(body_text(Seq::<DiffLine>::empty()) + rendered_line(ctx)
                            =~= rendered_line(ctx));
                    }
                }
            },
            DiffLine::Removed(s) => {
                if sel_i {
                    let add = DiffLine::Added(s.clone());
                    push_rendered(&mut body, &add);
                    new_count += 1;
                    proof {
                        assert(reverse_line(l, sel_i) =~= Seq::empty().push(add));
                        lemma_body_push(Seq::empty(), add);
                        assert(body_text(Seq::<DiffLine>::empty()) + rendered_line(add)
                            =~= rendered_line(add));
                    }
                } else {
                    proof {
                        assert(body@ + body_text(reverse_line(l, sel_i)) =~= body@);
                    }
                }
            },
        }
        i += 1;
    }
    proof {
        assert(hunk.lines@.take(n as int) =~= hunk.lines@);
    }
    let mut patch = String::new();
    push_file_header(&mut patch, file_path);
    push_hunk_header(&mut patch, hunk.new_start, old_count, hunk.new_start, new_count);
    patch.append(body.as_str());
    patch
}

} // verus!
