//! The paragraph segmenter: a document's lines are split into maximal runs
//! of non-blank lines; runs of blank lines separate paragraphs and are
//! discarded.

use vstd::prelude::*;
use itertools::Itertools;

use crate::text::{is_blank, is_blank_str, spec_lines, split_lines};

verus! {

/// A maximal run of contiguous non-blank lines, in original order and with
/// original (untrimmed) content. The segmenter only ever constructs
/// non-empty, all-non-blank values; `from_lines` also admits other line
/// vectors, which the paragraph builder then rejects.
#[derive(Debug)]
pub struct RawParagraph {
    lines: Vec<String>,
}

impl View for RawParagraph {
    type V = Seq<Seq<char>>;

    closed spec fn view(&self) -> Seq<Seq<char>> {
        self.lines.deep_view()
    }
}

impl DeepView for RawParagraph {
    type V = Seq<Seq<char>>;

    open spec fn deep_view(&self) -> Seq<Seq<char>> {
        self.view()
    }
}

impl RawParagraph {
    pub fn from_lines(lines: Vec<String>) -> (p: RawParagraph)
        ensures
            p@ == lines.deep_view(),
    {
        RawParagraph { lines }
    }

    /// The paragraph's lines, in order.
    pub fn lines(&self) -> (r: &Vec<String>)
        ensures
            r.deep_view() == self@,
    {
        &self.lines
    }
}

impl PartialEq for RawParagraph {
    fn eq(&self, other: &RawParagraph) -> (r: bool) {
        string_vec_eq(&self.lines, &other.lines)
    }
}

impl vstd::std_specs::cmp::PartialEqSpecImpl for RawParagraph {
    open spec fn obeys_eq_spec() -> bool {
        true
    }

    open spec fn eq_spec(&self, other: &RawParagraph) -> bool {
        self@ == other@
    }
}

fn string_vec_eq(a: &Vec<String>, b: &Vec<String>) -> (r: bool)
    ensures
        r == (a.deep_view() == b.deep_view()),
{
    if a.len() != b.len() {
        proof {
            assert(a.deep_view().len() != b.deep_view().len());
        }
        return false;
    }
    let mut i: usize = 0;
    #[verifier::loop_isolation(false)]
    while i < a.len()
        invariant
            i <= a.len(),
            forall|k: int| 0 <= k < i ==> a.deep_view()[k] == b.deep_view()[k],
        decreases a.len() - i,
    {
        if !(a[i] == b[i]) {
            proof {
                assert(a.deep_view()[i as int] != b.deep_view()[i as int]);
            }
            return false;
        }
        i = i + 1;
    }
    proof {
        assert(a.deep_view() =~= b.deep_view());
    }
    true
}

/// The segmentation of a line sequence: blank lines are dropped, and each
/// non-blank line either extends the paragraph of the non-blank line just
/// before it or starts a new one.
pub open spec fn spec_segment(ls: Seq<Seq<char>>) -> Seq<Seq<Seq<char>>>
    decreases ls.len(),
{
    if ls.len() == 0 {
        Seq::empty()
    } else {
        let rest = spec_segment(ls.drop_last());
        let line = ls.last();
        if is_blank(line) {
            rest
        } else if ls.len() >= 2 && !is_blank(ls[ls.len() - 2]) {
            rest.update(rest.len() - 1, rest.last().push(line))
        } else {
            rest.push(seq![line])
        }
    }
}

/// The number of maximal non-blank runs: one for each non-blank line whose
/// predecessor is absent or blank.
pub open spec fn count_runs(ls: Seq<Seq<char>>) -> nat
    decreases ls.len(),
{
    if ls.len() == 0 {
        0
    } else {
        count_runs(ls.drop_last()) + (if !is_blank(ls.last()) && (ls.len() == 1 || is_blank(
            ls[ls.len() - 2],
        )) {
            1nat
        } else {
            0nat
        })
    }
}

/// Every paragraph the segmenter yields is non-empty and free of blank
/// lines; a document ending in a non-blank line yields at least one.
pub proof fn lemma_segment_wf(ls: Seq<Seq<char>>)
    ensures
        forall|i: int| 0 <= i < spec_segment(ls).len() ==> (#[trigger] spec_segment(ls)[i]).len()
            > 0,
        forall|i: int, j: int|
            0 <= i < spec_segment(ls).len() && 0 <= j < spec_segment(ls)[i].len() ==> !is_blank(
                #[trigger] spec_segment(ls)[i][j],
            ),
        ls.len() > 0 && !is_blank(ls.last()) ==> spec_segment(ls).len() > 0,
    decreases ls.len(),
{
    if ls.len() == 0 {
    } else {
        lemma_segment_wf(ls.drop_last());
        let rest = spec_segment(ls.drop_last());
        let line = ls.last();
        if is_blank(line) {
        } else if ls.len() >= 2 && !is_blank(ls[ls.len() - 2]) {
            assert(ls.drop_last().last() == ls[ls.len() - 2]);
            assert(rest.len() > 0);
        } else {
        }
    }
}

/// The segmenter produces exactly one paragraph per maximal non-blank run.
pub proof fn lemma_segment_count(ls: Seq<Seq<char>>)
    ensures
        spec_segment(ls).len() == count_runs(ls),
    decreases ls.len(),
{
    if ls.len() == 0 {
    } else {
        lemma_segment_count(ls.drop_last());
        let line = ls.last();
        if !is_blank(line) && ls.len() >= 2 && !is_blank(ls[ls.len() - 2]) {
            lemma_segment_wf(ls.drop_last());
            assert(ls.drop_last().last() == ls[ls.len() - 2]);
        }
    }
}

/// Appending only blank lines leaves the segmentation unchanged.
pub proof fn lemma_segment_append_blank(xs: Seq<Seq<char>>, b: Seq<Seq<char>>)
    requires
        forall|j: int| 0 <= j < b.len() ==> is_blank(#[trigger] b[j]),
    ensures
        spec_segment(xs + b) == spec_segment(xs),
    decreases b.len(),
{
    if b.len() == 0 {
        assert(xs + b =~= xs);
    } else {
        lemma_segment_append_blank(xs, b.drop_last());
        assert((xs + b).drop_last() =~= xs + b.drop_last());
        assert((xs + b).last() == b.last());
    }
}

/// Appending one run of non-blank lines after a blank boundary appends
/// exactly one paragraph holding that run.
pub proof fn lemma_segment_append_run(xs: Seq<Seq<char>>, nb: Seq<Seq<char>>)
    requires
        nb.len() > 0,
        forall|j: int| 0 <= j < nb.len() ==> !is_blank(#[trigger] nb[j]),
        xs.len() == 0 || is_blank(xs.last()),
    ensures
        spec_segment(xs + nb) == spec_segment(xs).push(nb),
    decreases nb.len(),
{
    let all = xs + nb;
    if nb.len() == 1 {
        assert(all.drop_last() =~= xs);
        assert(all.last() == nb[0]);
        if all.len() >= 2 {
            assert(all[all.len() - 2] == xs.last());
        }
        assert(seq![nb[0]] =~= nb);
    } else {
        lemma_segment_append_run(xs, nb.drop_last());
        assert(all.drop_last() =~= xs + nb.drop_last());
        assert(all.last() == nb.last());
        assert(all[all.len() - 2] == nb[nb.len() - 2]);
        let prev = spec_segment(xs).push(nb.drop_last());
        assert(spec_segment(all) == prev.update(prev.len() - 1, prev.last().push(nb.last())));
        assert(prev.last() == nb.drop_last());
        assert(nb.drop_last().push(nb.last()) =~= nb);
        assert(prev.update(prev.len() - 1, nb) =~= spec_segment(xs).push(nb));
    }
}

/// A document of blank lines only yields no paragraphs at all.
pub proof fn lemma_blank_document(ls: Seq<Seq<char>>)
    requires
        forall|i: int| 0 <= i < ls.len() ==> is_blank(#[trigger] ls[i]),
    ensures
        spec_segment(ls) == Seq::<Seq<Seq<char>>>::empty(),
{
    assert(Seq::<Seq<char>>::empty() + ls =~= ls);
    lemma_segment_append_blank(Seq::<Seq<char>>::empty(), ls);
}

/// The segmenter's own output, rejoined with one blank line between
/// paragraphs, segments back to exactly the same paragraphs.
pub open spec fn rejoin(ps: Seq<Seq<Seq<char>>>) -> Seq<Seq<char>>
    decreases ps.len(),
{
    if ps.len() == 0 {
        Seq::empty()
    } else if ps.len() == 1 {
        ps[0]
    } else {
        rejoin(ps.drop_last()) + seq![Seq::<char>::empty()] + ps.last()
    }
}

/// Segmentation is idempotent: any valid paragraph sequence — non-empty
/// paragraphs of non-blank lines, as `lemma_segment_wf` shows the segmenter
/// yields — is recovered unchanged (same count, same content) when its
/// rejoined lines are segmented again.
pub proof fn lemma_segment_rejoin(ps: Seq<Seq<Seq<char>>>)
    requires
        forall|i: int| 0 <= i < ps.len() ==> (#[trigger] ps[i]).len() > 0,
        forall|i: int, j: int|
            0 <= i < ps.len() && 0 <= j < ps[i].len() ==> !is_blank(#[trigger] ps[i][j]),
    ensures
        spec_segment(rejoin(ps)) == ps,
    decreases ps.len(),
{
    if ps.len() == 0 {
        assert(spec_segment(rejoin(ps)) =~= ps);
    } else if ps.len() == 1 {
        assert(Seq::<Seq<char>>::empty() + ps[0] =~= ps[0]);
        lemma_segment_append_run(Seq::<Seq<char>>::empty(), ps[0]);
        assert(Seq::<Seq<Seq<char>>>::empty().push(ps[0]) =~= ps);
    } else {
        lemma_segment_rejoin(ps.drop_last());
        let r = rejoin(ps.drop_last());
        let sep = seq![Seq::<char>::empty()];
        lemma_segment_append_blank(r, sep);
        assert(is_blank((r + sep).last()));
        lemma_segment_append_run(r + sep, ps.last());
        assert(rejoin(ps) == (r + sep) + ps.last());
        assert(spec_segment(rejoin(ps)) == spec_segment(r).push(ps.last()));
        assert(spec_segment(rejoin(ps.drop_last())) == ps.drop_last());
        assert(ps.drop_last().push(ps.last()) =~= ps);
    }
}

/// Segmentation is idempotent on its own output: rejoining the paragraphs
/// of a document with one blank line between them and segmenting again
/// yields the same paragraphs, and so the same count.
pub proof fn lemma_segment_idempotent(ls: Seq<Seq<char>>)
    ensures
        spec_segment(rejoin(spec_segment(ls))) == spec_segment(ls),
{
    lemma_segment_wf(ls);
    lemma_segment_rejoin(spec_segment(ls));
}

/// What grouping lines by blankness yields: the groups concatenate back to
/// the input, none is empty, blankness is uniform inside a group, and it
/// alternates between neighbouring groups.
pub open spec fn grouped_by_blankness(orig: Seq<Seq<char>>, gs: Seq<Seq<Seq<char>>>) -> bool {
    &&& gs.flatten() == orig
    &&& forall|i: int| 0 <= i < gs.len() ==> (#[trigger] gs[i]).len() > 0
    &&& forall|i: int, j: int|
        0 <= i < gs.len() && 0 <= j < gs[i].len() ==> (is_blank(#[trigger] gs[i][j]) <==> is_blank(
            gs[i][0],
        ))
    &&& forall|i: int|
        0 <= i < gs.len() - 1 ==> (is_blank(#[trigger] gs[i][0]) <==> !is_blank(gs[i + 1][0]))
}

/// Relies on itertools' `chunk_by`: consecutive elements that map to the
/// same key form one group, groups are never empty, and iterating the
/// groups in order yields every element in its original order.
#[verifier::external_body]
fn group_by_blankness(lines: Vec<String>) -> (groups: Vec<Vec<String>>)
    ensures
        grouped_by_blankness(lines.deep_view(), groups.deep_view()),
{
    let mut groups: Vec<Vec<String>> = Vec::new();
    for (_, chunk) in &lines.into_iter().chunk_by(|line| is_blank_str(line)) {
        groups.push(chunk.collect());
    }
    groups
}

/// The groups that grouping by blankness yields, with the blank ones
/// dropped.
pub open spec fn keep_nonblank(gs: Seq<Seq<Seq<char>>>) -> Seq<Seq<Seq<char>>>
    decreases gs.len(),
{
    if gs.len() == 0 {
        Seq::empty()
    } else {
        let r = keep_nonblank(gs.drop_last());
        let g = gs.last();
        if g.len() > 0 && !is_blank(g[0]) {
            r.push(g)
        } else {
            r
        }
    }
}

/// On any grouping by blankness, keeping the non-blank groups is exactly
/// segmentation of the flattened lines.
proof fn lemma_groups_segment(gs: Seq<Seq<Seq<char>>>)
    requires
        forall|i: int| 0 <= i < gs.len() ==> (#[trigger] gs[i]).len() > 0,
        forall|i: int, j: int|
            0 <= i < gs.len() && 0 <= j < gs[i].len() ==> (is_blank(#[trigger] gs[i][j])
                <==> is_blank(gs[i][0])),
        forall|i: int|
            0 <= i < gs.len() - 1 ==> (is_blank(#[trigger] gs[i][0]) <==> !is_blank(gs[i + 1][0])),
    ensures
        spec_segment(gs.flatten()) == keep_nonblank(gs),
    decreases gs.len(),
{
    if gs.len() == 0 {
        assert(gs.flatten() =~= Seq::<Seq<char>>::empty());
    } else {
        let init = gs.drop_last();
        let g = gs.last();
        assert(forall|i: int| 0 <= i < init.len() ==> init[i] == gs[i]);
        lemma_groups_segment(init);
        assert(init.push(g) =~= gs);
        Seq::lemma_flatten_push(init, g);
        assert(gs.flatten() == init.flatten() + g);
        if is_blank(g[0]) {
            assert(forall|j: int| 0 <= j < g.len() ==> is_blank(#[trigger] g[j]));
            lemma_segment_append_blank(init.flatten(), g);
        } else {
            if init.len() > 0 {
                let h = init.last();
                assert(init.drop_last().push(h) =~= init);
                Seq::lemma_flatten_push(init.drop_last(), h);
                assert(init.flatten() == init.drop_last().flatten() + h);
                assert(init.flatten().last() == h[h.len() - 1]);
                assert(is_blank(gs[gs.len() - 2][0]));
                assert(is_blank(init.flatten().last()));
            }
            assert(forall|j: int| 0 <= j < g.len() ==> !is_blank(#[trigger] g[j]));
            lemma_segment_append_run(init.flatten(), g);
        }
    }
}

/// Splits a document's lines into its paragraphs: maximal runs of non-blank
/// lines, in order; runs of blank lines are discarded, not represented.
pub fn lines_to_paragraphs(lines: Vec<String>) -> (r: Vec<RawParagraph>)
    ensures
        r.deep_view() == spec_segment(lines.deep_view()),
{
    let ghost orig = lines.deep_view();
    let groups = group_by_blankness(lines);
    let ghost gs = groups.deep_view();
    proof {
        lemma_groups_segment(gs);
    }
    let mut r: Vec<RawParagraph> = Vec::new();
    let mut i: usize = 0;
    #[verifier::loop_isolation(false)]
    while i < groups.len()
        invariant
            i <= groups.len(),
            gs == groups.deep_view(),
            r.deep_view() =~= keep_nonblank(gs.take(i as int)),
        decreases groups.len() - i,
    {
        let ghost prev = r.deep_view();
        assert(groups[i as int].deep_view() == gs[i as int]);
        assert(gs[i as int].len() > 0);
        let keep = !is_blank_str(groups[i].as_slice()[0].as_str());
        if keep {
            let lines_copy = groups[i].clone();
            proof {
                assert(lines_copy.deep_view() =~= groups[i as int].deep_view());
            }
            r.push(RawParagraph { lines: lines_copy });
            proof {
                assert(r.deep_view() =~= prev.push(gs[i as int]));
            }
        }
        proof {
            assert(gs.take(i + 1).drop_last() =~= gs.take(i as int));
            assert(gs.take(i + 1).last() == gs[i as int]);
            assert(r.deep_view() =~= keep_nonblank(gs.take(i + 1)));
        }
        i = i + 1;
    }
    proof {
        assert(gs.take(groups.len() as int) =~= gs);
    }
    r
}

/// Segmentation offered directly on a text: its lines are split off and
/// grouped into paragraphs.
pub trait ToRawParagraphs: View<V = Seq<char>> {
    /// The paragraphs of this text, in document order.
    fn to_raw_paragraphs(&self) -> (r: Vec<RawParagraph>)
        ensures
            r.deep_view() == spec_segment(spec_lines(self@)),
    ;
}

impl ToRawParagraphs for str {
    fn to_raw_paragraphs(&self) -> (r: Vec<RawParagraph>) {
        lines_to_paragraphs(split_lines(self))
    }
}

} // verus!
