//! Grouping of labels: partitioning by source file and nesting of
//! overlapping labels under a multi-line parent.

use vstd::prelude::*;

use crate::diagnostic::{same_name, spec_resolved_source, Label, Source};
use crate::diagnostic::{name_eq, resolve_source};
use crate::span::{coords_of_span, effective_index, line_col_at, SpanRange};

verus! {

/// One parent label together with the labels nested under it, all sharing
/// one resolved source.
#[derive(Debug)]
pub struct LabelContext {
    /// The root label of the context.
    pub parent: Label,
    /// The labels contained within the parent.
    pub children: Vec<Label>,
    /// The source shared by the labels.
    pub source: Source,
}

/// One or more labels that share a resolved source file.
#[derive(Debug)]
pub struct LabelGroup {
    /// The labels in the group, in first-seen order.
    pub labels: Vec<Label>,
    /// The source shared by the labels.
    pub source: Source,
}

/// The greatest range end among the given labels, or zero if there are
/// none.
pub open spec fn max_child_end(children: Seq<Label>) -> int
    decreases children.len(),
{
    if children.len() == 0 {
        0
    } else {
        let rest = max_child_end(children.drop_last());
        if children.last().range.end > rest {
            children.last().range.end as int
        } else {
            rest
        }
    }
}

/// The span covering a whole context: from the parent's start to the
/// furthest end among the parent and its children.
pub open spec fn spec_max_span(parent: Label, children: Seq<Label>) -> (int, int) {
    let ce = max_child_end(children);
    (
        parent.range.start as int,
        if parent.range.end >= ce {
            parent.range.end as int
        } else {
            ce
        },
    )
}

impl LabelContext {
    /// The span which contains every label in the context, parent
    /// included.
    #[verifier::loop_isolation(false)]
    pub fn max_span(&self) -> (r: SpanRange)
        ensures
            (r.start as int, r.end as int) == spec_max_span(self.parent, self.children@),
    {
        let mut end: usize = 0;
        let n = self.children.len();
        let mut i: usize = 0;
        while i < n
            invariant
                i <= n,
                end as int == max_child_end(self.children@.take(i as int)),
            decreases n - i,
        {
            let ce = self.children[i].range.end;
            if ce > end {
                end = ce;
            }
            proof {
                assert(self.children@.take(i + 1).drop_last() =~= self.children@.take(i as int));
                assert(self.children@.take(i + 1).last() == self.children@[i as int]);
            }
            i = i + 1;
        }
        proof {
            assert(self.children@.take(n as int) =~= self.children@);
        }
        let final_end: usize = if self.parent.range.end >= end {
            self.parent.range.end
        } else {
            end
        };
        SpanRange { start: self.parent.range.start, end: final_end }
    }
}

/// Inserts a label into a sequence sorted by ascending range start, after
/// any label with the same start.
pub open spec fn insert_sorted(l: Label, s: Seq<Label>) -> Seq<Label>
    decreases s.len(),
{
    if s.len() == 0 {
        seq![l]
    } else if l.range.start < s.last().range.start {
        insert_sorted(l, s.drop_last()).push(s.last())
    } else {
        s.push(l)
    }
}

/// The labels sorted by ascending range start; labels with equal starts
/// keep their relative order.
pub open spec fn sort_labels_spec(s: Seq<Label>) -> Seq<Label>
    decreases s.len(),
{
    if s.len() == 0 {
        Seq::empty()
    } else {
        insert_sorted(s.last(), sort_labels_spec(s.drop_last()))
    }
}

pub proof fn lemma_insert_sorted_len(l: Label, s: Seq<Label>)
    ensures
        insert_sorted(l, s).len() == s.len() + 1,
    decreases s.len(),
{
    if s.len() > 0 && l.range.start < s.last().range.start {
        lemma_insert_sorted_len(l, s.drop_last());
    }
}

pub proof fn lemma_sort_labels_len(s: Seq<Label>)
    ensures
        sort_labels_spec(s).len() == s.len(),
    decreases s.len(),
{
    if s.len() > 0 {
        lemma_sort_labels_len(s.drop_last());
        lemma_insert_sorted_len(s.last(), sort_labels_spec(s.drop_last()));
    }
}

proof fn lemma_insert_sorted_at(l: Label, s: Seq<Label>, p: int)
    requires
        0 <= p <= s.len(),
        forall|j: int| p <= j < s.len() ==> s[j].range.start > l.range.start,
        p > 0 ==> s[p - 1].range.start <= l.range.start,
    ensures
        insert_sorted(l, s) == s.take(p) + seq![l] + s.skip(p),
    decreases s.len(),
{
    if p == s.len() {
        if s.len() > 0 {
            assert(!(l.range.start < s.last().range.start));
        }
        assert(insert_sorted(l, s) =~= s.take(p) + seq![l] + s.skip(p));
    } else {
        assert(s[s.len() - 1].range.start > l.range.start);
        lemma_insert_sorted_at(l, s.drop_last(), p);
        assert(s.drop_last().take(p) =~= s.take(p));
        assert(insert_sorted(l, s) == insert_sorted(l, s.drop_last()).push(s.last()));
        assert(insert_sorted(l, s) =~= s.take(p) + seq![l] + s.skip(p));
    }
}

/// Whether a label's span covers more than one line of the given source.
pub open spec fn spec_label_multiline(l: Label, src: Source) -> bool {
    line_col_at(src.content@, effective_index(src.content@, l.range.start as int)).0
        != line_col_at(src.content@, effective_index(src.content@, l.range.end as int)).0
}

/// Whether a later label is attached as a child of the parent being built:
/// it must resolve to a source of the same name, start within the parent's
/// range, and not already sit in another context.
pub open spec fn spec_attaches(
    sorted: Seq<Label>,
    dsrc: Option<Source>,
    psrc: Source,
    pstart: int,
    pend: int,
    visited: Seq<bool>,
    lo: int,
) -> bool {
    let child = sorted[lo];
    let csrc = spec_resolved_source(child.source, dsrc);
    &&& csrc matches Some(cs) && same_name(cs.name, psrc.name)
    &&& pstart <= child.range.start < pend
    &&& !visited[lo]
}

/// The children collected for a multi-line parent: a scan over the later
/// labels, attaching and marking each one that qualifies.
pub open spec fn collect_children(
    sorted: Seq<Label>,
    dsrc: Option<Source>,
    psrc: Source,
    lo: int,
    pstart: int,
    pend: int,
    visited: Seq<bool>,
) -> (Seq<Label>, Seq<bool>)
    decreases sorted.len() - lo,
{
    if lo < 0 || lo >= sorted.len() {
        (Seq::empty(), visited)
    } else {
        let attach = spec_attaches(sorted, dsrc, psrc, pstart, pend, visited, lo);
        let visited2 = if attach {
            visited.update(lo, true)
        } else {
            visited
        };
        let rest = collect_children(sorted, dsrc, psrc, lo + 1, pstart, pend, visited2);
        if attach {
            (seq![sorted[lo]] + rest.0, rest.1)
        } else {
            rest
        }
    }
}

/// The contexts produced from the sorted labels starting at `idx`, given
/// which labels are already placed: each unvisited label that resolves to
/// a source becomes a parent; a multi-line parent takes the later labels
/// that qualify as its children.
pub open spec fn group_ctxs_from(
    sorted: Seq<Label>,
    dsrc: Option<Source>,
    idx: int,
    visited: Seq<bool>,
) -> Seq<(Label, Seq<Label>, Source)>
    decreases sorted.len() - idx,
{
    if idx < 0 || idx >= sorted.len() {
        Seq::empty()
    } else {
        let parent = sorted[idx];
        let psrc = spec_resolved_source(parent.source, dsrc);
        if psrc is None || visited[idx] {
            group_ctxs_from(sorted, dsrc, idx + 1, visited)
        } else {
            let src = psrc->0;
            let visited1 = visited.update(idx, true);
            if !spec_label_multiline(parent, src) {
                seq![(parent, Seq::<Label>::empty(), src)] + group_ctxs_from(
                    sorted,
                    dsrc,
                    idx + 1,
                    visited1,
                )
            } else {
                let cr = collect_children(
                    sorted,
                    dsrc,
                    src,
                    idx + 1,
                    parent.range.start as int,
                    parent.range.end as int,
                    visited1,
                );
                seq![(parent, cr.0, src)] + group_ctxs_from(sorted, dsrc, idx + 1, cr.1)
            }
        }
    }
}

/// The label contexts for a list of labels: the labels sorted by start,
/// then grouped greedily, one-level deep.
pub open spec fn group_ctxs_spec(labels: Seq<Label>, dsrc: Option<Source>) -> Seq<
    (Label, Seq<Label>, Source),
> {
    group_ctxs_from(
        sort_labels_spec(labels),
        dsrc,
        0,
        Seq::new(labels.len(), |i: int| false),
    )
}

/// The mathematical form of a list of contexts.
pub open spec fn ctxs_view(ctxs: Seq<LabelContext>) -> Seq<(Label, Seq<Label>, Source)> {
    ctxs.map_values(|c: LabelContext| (c.parent, c.children@, c.source))
}

/// Groups labels into contexts: sorts them by ascending start, then walks
/// them in order, making each not-yet-placed label with a resolvable
/// source a parent context. A multi-line parent takes each later label
/// that shares its source name and starts within its range as a child; a
/// single-line parent never has children, and nesting is exactly one level
/// deep. Labels with no resolvable source are dropped.
#[verifier::loop_isolation(false)]
pub fn group_overlapping_labels(diag_source: &Option<Source>, labels: Vec<Label>) -> (r: Vec<
    LabelContext,
>)
    ensures
        ctxs_view(r@) == group_ctxs_spec(labels@, *diag_source),
{
    let ghost dsrc = *diag_source;
    let ghost input = labels@;
    let sorted = sort_labels(labels);
    let n = sorted.len();
    let mut visited: Vec<bool> = Vec::new();
    let mut k: usize = 0;
    while k < n
        invariant
            k <= n,
            visited@ == Seq::new(k as nat, |i: int| false),
        decreases n - k,
    {
        visited.push(false);
        proof {
            assert(visited@ =~= Seq::new((k + 1) as nat, |i: int| false));
        }
        k = k + 1;
    }
    proof {
        lemma_sort_labels_len(input);
        assert(Seq::new(n as nat, |i: int| false) =~= Seq::new(input.len(), |i: int| false));
        assert(ctxs_view(Seq::<LabelContext>::empty()) =~= Seq::<
            (Label, Seq<Label>, Source),
        >::empty());
    }
    let mut ctxs: Vec<LabelContext> = Vec::new();
    let mut idx: usize = 0;
    while idx < n
        invariant
            idx <= n,
            n == sorted@.len(),
            visited@.len() == n,
            group_ctxs_spec(input, dsrc) == ctxs_view(ctxs@) + group_ctxs_from(
                sorted@,
                dsrc,
                idx as int,
                visited@,
            ),
        decreases n - idx,
    {
        let parent = sorted[idx].clone();
        let psrc = resolve_source(&parent.source, diag_source);
        match psrc {
            None => {
            },
            Some(src) => {
                if !visited[idx] {
                    let ghost vis0 = visited@;
                    visited[idx] = true;
                    let ghost vis1 = visited@;
                    proof {
                        assert(vis1 =~= vis0.update(idx as int, true));
                    }
                    let span = coords_of_span(src.content.as_str(), parent.range);
                    if !span.is_multiline() {
                        let ghost prev = ctxs@;
                        ctxs.push(LabelContext { parent, children: Vec::new(), source: src });
                        proof {
                            assert(ctxs_view(ctxs@) =~= ctxs_view(prev) + seq![
                                (sorted@[idx as int], Seq::<Label>::empty(), src),
                            ]);
                            assert(group_ctxs_from(sorted@, dsrc, idx as int, vis0) == seq![
                                (sorted@[idx as int], Seq::<Label>::empty(), src),
                            ] + group_ctxs_from(sorted@, dsrc, idx + 1, vis1));
                            assert(ctxs_view(ctxs@) + group_ctxs_from(sorted@, dsrc, idx + 1, vis1)
                                =~= ctxs_view(prev) + group_ctxs_from(
                                sorted@,
                                dsrc,
                                idx as int,
                                vis0,
                            ));
                        }
                    } else {
                        let ghost ps = parent.range.start as int;
                        let ghost pe = parent.range.end as int;
                        let mut children: Vec<Label> = Vec::new();
                        let mut j: usize = idx + 1;
                        while j < n
                            invariant
                                idx < j <= n,
                                n == sorted@.len(),
                                visited@.len() == n,
                                collect_children(sorted@, dsrc, src, idx + 1, ps, pe, vis1).0
                                    == children@ + collect_children(
                                    sorted@,
                                    dsrc,
                                    src,
                                    j as int,
                                    ps,
                                    pe,
                                    visited@,
                                ).0,
                                collect_children(sorted@, dsrc, src, idx + 1, ps, pe, vis1).1
                                    == collect_children(
                                    sorted@,
                                    dsrc,
                                    src,
                                    j as int,
                                    ps,
                                    pe,
                                    visited@,
                                ).1,
                            decreases n - j,
                        {
                            let child = sorted[j].clone();
                            let csrc = resolve_source(&child.source, diag_source);
                            let attach: bool = match &csrc {
                                Some(cs) => name_eq(&cs.name, &src.name)
                                    && parent.range.start <= child.range.start
                                    && child.range.start < parent.range.end && !visited[j],
                                None => false,
                            };
                            proof {
                                assert(attach == spec_attaches(
                                    sorted@,
                                    dsrc,
                                    src,
                                    ps,
                                    pe,
                                    visited@,
                                    j as int,
                                ));
                            }
                            let ghost visb = visited@;
                            let ghost childb = children@;
                            if attach {
                                visited[j] = true;
                                children.push(child);
                                proof {
                                    assert(childb + seq![sorted@[j as int]] + collect_children(
                                        sorted@,
                                        dsrc,
                                        src,
                                        j + 1,
                                        ps,
                                        pe,
                                        visited@,
                                    ).0 =~= childb + (seq![sorted@[j as int]] + collect_children(
                                        sorted@,
                                        dsrc,
                                        src,
                                        j + 1,
                                        ps,
                                        pe,
                                        visited@,
                                    ).0));
                                }
                            }
                            j = j + 1;
                        }
                        proof {
                            assert(collect_children(
                                sorted@,
                                dsrc,
                                src,
                                n as int,
                                ps,
                                pe,
                                visited@,
                            ).0 =~= Seq::<Label>::empty());
                            assert(children@ + Seq::<Label>::empty() =~= children@);
                        }
                        let ghost prev = ctxs@;
                        ctxs.push(LabelContext { parent, children, source: src });
                        proof {
                            let cr = collect_children(sorted@, dsrc, src, idx + 1, ps, pe, vis1);
                            assert(children@ == cr.0);
                            assert(visited@ == cr.1);
                            assert(ctxs_view(ctxs@) =~= ctxs_view(prev) + seq![
                                (sorted@[idx as int], cr.0, src),
                            ]);
                            assert(group_ctxs_from(sorted@, dsrc, idx as int, vis0) == seq![
                                (sorted@[idx as int], cr.0, src),
                            ] + group_ctxs_from(sorted@, dsrc, idx + 1, cr.1));
                            assert(ctxs_view(ctxs@) + group_ctxs_from(sorted@, dsrc, idx + 1, cr.1)
                                =~= ctxs_view(prev) + group_ctxs_from(
                                sorted@,
                                dsrc,
                                idx as int,
                                vis0,
                            ));
                        }
                    }
                }
            },
        }
        idx = idx + 1;
    }
    proof {
        assert(group_ctxs_from(sorted@, dsrc, n as int, visited@) =~= Seq::<
            (Label, Seq<Label>, Source),
        >::empty());
        assert(ctxs_view(ctxs@) =~= ctxs_view(ctxs@) + group_ctxs_from(
            sorted@,
            dsrc,
            n as int,
            visited@,
        ));
    }
    ctxs
}

/// Sorts labels by ascending range start; labels with equal starts keep
/// their relative order.
#[verifier::loop_isolation(false)]
pub fn sort_labels(labels: Vec<Label>) -> (r: Vec<Label>)
    ensures
        r@ == sort_labels_spec(labels@),
{
    let n = labels.len();
    let mut rest = labels;
    let ghost input = rest@;
    let mut out: Vec<Label> = Vec::new();
    let mut i: usize = 0;
    proof {
        assert(input.take(0) =~= Seq::<Label>::empty());
    }
    while i < n
        invariant
            i <= n,
            rest@ == input,
            n == input.len(),
            out@ == sort_labels_spec(input.take(i as int)),
        decreases n - i,
    {
        let l = rest[i].clone();
        let mut p: usize = out.len();
        while p > 0 && out[p - 1].range.start > l.range.start
            invariant
                p <= out@.len(),
                forall|j: int| p <= j < out@.len() ==> out@[j].range.start > l.range.start,
            decreases p,
        {
            p = p - 1;
        }
        proof {
            lemma_insert_sorted_at(l, out@, p as int);
        }
        out.insert(p, l);
        proof {
            assert(out@ =~= sort_labels_spec(input.take(i as int)).take(p as int) + seq![l]
                + sort_labels_spec(input.take(i as int)).skip(p as int));
            assert(input.take(i + 1).drop_last() =~= input.take(i as int));
            assert(input.take(i + 1).last() == input[i as int]);
            assert(out@ == insert_sorted(l, sort_labels_spec(input.take(i as int))));
        }
        i = i + 1;
    }
    proof {
        assert(input.take(n as int) =~= input);
    }
    out
}


/// How many times a label occurs in a sequence of labels.
pub open spec fn seq_count(s: Seq<Label>, x: Label) -> int
    decreases s.len(),
{
    if s.len() == 0 {
        0
    } else {
        seq_count(s.drop_first(), x) + if s[0] == x {
            1int
        } else {
            0int
        }
    }
}

/// How many times a label occurs in a list of contexts, counting both the
/// parents and the children.
pub open spec fn ctx_count(ctxs: Seq<(Label, Seq<Label>, Source)>, x: Label) -> int
    decreases ctxs.len(),
{
    if ctxs.len() == 0 {
        0
    } else {
        (if ctxs[0].0 == x {
            1int
        } else {
            0int
        }) + seq_count(ctxs[0].1, x) + ctx_count(ctxs.drop_first(), x)
    }
}

/// How many of the labels at not-yet-visited positions from `from` onward
/// equal `x`.
pub open spec fn unvisited_count(sorted: Seq<Label>, visited: Seq<bool>, from: int, x: Label) -> int
    decreases sorted.len() - from,
{
    if from < 0 || from >= sorted.len() {
        0
    } else {
        unvisited_count(sorted, visited, from + 1, x) + if !visited[from] && sorted[from] == x {
            1int
        } else {
            0int
        }
    }
}

proof fn lemma_seq_count_push(s: Seq<Label>, a: Label, x: Label)
    ensures
        seq_count(s.push(a), x) == seq_count(s, x) + if a == x {
            1int
        } else {
            0int
        },
    decreases s.len(),
{
    if s.len() == 0 {
        assert(s.push(a).drop_first() =~= Seq::<Label>::empty());
        assert(s.push(a)[0] == a);
        assert(seq_count(Seq::<Label>::empty(), x) == 0);
        assert(seq_count(s.push(a).drop_first(), x) == 0);
    } else {
        assert(s.push(a).drop_first() =~= s.drop_first().push(a));
        assert(s.push(a)[0] == s[0]);
        lemma_seq_count_push(s.drop_first(), a, x);
    }
}

proof fn lemma_seq_count_nonneg(s: Seq<Label>, x: Label)
    ensures
        seq_count(s, x) >= 0,
    decreases s.len(),
{
    if s.len() > 0 {
        lemma_seq_count_nonneg(s.drop_first(), x);
    }
}

proof fn lemma_insert_sorted_count(l: Label, s: Seq<Label>, x: Label)
    ensures
        seq_count(insert_sorted(l, s), x) == seq_count(s, x) + if l == x {
            1int
        } else {
            0int
        },
    decreases s.len(),
{
    if s.len() == 0 {
        lemma_seq_count_push(Seq::<Label>::empty(), l, x);
        assert(insert_sorted(l, s) =~= Seq::<Label>::empty().push(l));
    } else if l.range.start < s.last().range.start {
        lemma_insert_sorted_count(l, s.drop_last(), x);
        lemma_seq_count_push(insert_sorted(l, s.drop_last()), s.last(), x);
        lemma_seq_count_push(s.drop_last(), s.last(), x);
        assert(s =~= s.drop_last().push(s.last()));
    } else {
        lemma_seq_count_push(s, l, x);
    }
}

proof fn lemma_sort_count(s: Seq<Label>, x: Label)
    ensures
        seq_count(sort_labels_spec(s), x) == seq_count(s, x),
    decreases s.len(),
{
    if s.len() > 0 {
        lemma_sort_count(s.drop_last(), x);
        lemma_insert_sorted_count(s.last(), sort_labels_spec(s.drop_last()), x);
        lemma_seq_count_push(s.drop_last(), s.last(), x);
        assert(s =~= s.drop_last().push(s.last()));
    }
}

proof fn lemma_unvisited_agree(
    sorted: Seq<Label>,
    v1: Seq<bool>,
    v2: Seq<bool>,
    from: int,
    x: Label,
)
    requires
        forall|j: int| from <= j < sorted.len() ==> v1[j] == v2[j],
    ensures
        unvisited_count(sorted, v1, from, x) == unvisited_count(sorted, v2, from, x),
    decreases sorted.len() - from,
{
    if 0 <= from < sorted.len() {
        lemma_unvisited_agree(sorted, v1, v2, from + 1, x);
    }
}

proof fn lemma_unvisited_all_false(sorted: Seq<Label>, visited: Seq<bool>, from: int, x: Label)
    requires
        0 <= from <= sorted.len(),
        visited.len() == sorted.len(),
        forall|j: int| from <= j < sorted.len() ==> !visited[j],
    ensures
        unvisited_count(sorted, visited, from, x) == seq_count(sorted.skip(from), x),
    decreases sorted.len() - from,
{
    if from < sorted.len() {
        lemma_unvisited_all_false(sorted, visited, from + 1, x);
        assert(sorted.skip(from).drop_first() =~= sorted.skip(from + 1));
        assert(sorted.skip(from)[0] == sorted[from]);
        lemma_seq_count_nonneg(sorted.skip(from + 1), x);
        assert(seq_count(sorted.skip(from), x) == seq_count(sorted.skip(from + 1), x) + if sorted[from] == x {
            1int
        } else {
            0int
        });
    } else {
        assert(sorted.skip(from).len() == 0);
    }
}

proof fn lemma_collect_counts(
    sorted: Seq<Label>,
    dsrc: Option<Source>,
    psrc: Source,
    lo: int,
    ps: int,
    pe: int,
    visited: Seq<bool>,
    x: Label,
)
    requires
        0 <= lo,
        visited.len() == sorted.len(),
    ensures
        collect_children(sorted, dsrc, psrc, lo, ps, pe, visited).1.len() == visited.len(),
        forall|j: int|
            0 <= j < lo ==> collect_children(sorted, dsrc, psrc, lo, ps, pe, visited).1[j]
                == visited[j],
        unvisited_count(sorted, visited, lo, x) == seq_count(
            collect_children(sorted, dsrc, psrc, lo, ps, pe, visited).0,
            x,
        ) + unvisited_count(
            sorted,
            collect_children(sorted, dsrc, psrc, lo, ps, pe, visited).1,
            lo,
            x,
        ),
    decreases sorted.len() - lo,
{
    if lo >= sorted.len() {
    } else {
        let attach = spec_attaches(sorted, dsrc, psrc, ps, pe, visited, lo);
        let v2 = if attach {
            visited.update(lo, true)
        } else {
            visited
        };
        let rest = collect_children(sorted, dsrc, psrc, lo + 1, ps, pe, v2);
        lemma_collect_counts(sorted, dsrc, psrc, lo + 1, ps, pe, v2, x);
        lemma_unvisited_agree(sorted, visited, v2, lo + 1, x);
        if attach {
            let kids = seq![sorted[lo]] + rest.0;
            assert(kids.drop_first() =~= rest.0);
            assert(kids[0] == sorted[lo]);
            assert(rest.1[lo] == v2[lo]);
            assert(v2[lo] == true);
            assert(unvisited_count(sorted, rest.1, lo, x) == unvisited_count(
                sorted,
                rest.1,
                lo + 1,
                x,
            ));
            assert forall|j: int| 0 <= j < lo implies rest.1[j] == visited[j] by {
                assert(rest.1[j] == v2[j]);
                assert(v2[j] == visited[j]);
            }
        } else {
            assert(rest.1[lo] == visited[lo]);
        }
    }
}

proof fn lemma_group_counts(
    sorted: Seq<Label>,
    dsrc: Option<Source>,
    idx: int,
    visited: Seq<bool>,
    x: Label,
)
    requires
        0 <= idx,
        visited.len() == sorted.len(),
    ensures
        ctx_count(group_ctxs_from(sorted, dsrc, idx, visited), x) <= unvisited_count(
            sorted,
            visited,
            idx,
            x,
        ),
    decreases sorted.len() - idx,
{
    if idx >= sorted.len() {
    } else {
        let parent = sorted[idx];
        let psrc = spec_resolved_source(parent.source, dsrc);
        if psrc is None || visited[idx] {
            lemma_group_counts(sorted, dsrc, idx + 1, visited, x);
        } else {
            let src = psrc->0;
            let vis1 = visited.update(idx, true);
            lemma_unvisited_agree(sorted, visited, vis1, idx + 1, x);
            if !spec_label_multiline(parent, src) {
                let r = seq![(parent, Seq::<Label>::empty(), src)] + group_ctxs_from(
                    sorted,
                    dsrc,
                    idx + 1,
                    vis1,
                );
                assert(r.drop_first() =~= group_ctxs_from(sorted, dsrc, idx + 1, vis1));
                assert(r[0] == (parent, Seq::<Label>::empty(), src));
                lemma_group_counts(sorted, dsrc, idx + 1, vis1, x);
            } else {
                let cr = collect_children(
                    sorted,
                    dsrc,
                    src,
                    idx + 1,
                    parent.range.start as int,
                    parent.range.end as int,
                    vis1,
                );
                let r = seq![(parent, cr.0, src)] + group_ctxs_from(sorted, dsrc, idx + 1, cr.1);
                assert(r.drop_first() =~= group_ctxs_from(sorted, dsrc, idx + 1, cr.1));
                assert(r[0] == (parent, cr.0, src));
                lemma_collect_counts(
                    sorted,
                    dsrc,
                    src,
                    idx + 1,
                    parent.range.start as int,
                    parent.range.end as int,
                    vis1,
                    x,
                );
                lemma_group_counts(sorted, dsrc, idx + 1, cr.1, x);
                assert(cr.1[idx] == vis1[idx]);
                assert(unvisited_count(sorted, cr.1, idx, x) == unvisited_count(
                    sorted,
                    cr.1,
                    idx + 1,
                    x,
                ));
            }
        }
    }
}

/// Law: the grouping is a partition of the labels it places. A label
/// occurs among the grouped contexts, as a parent or as a child, at most
/// as often as it occurs in the input: no label is attached to more than
/// one parent, and none appears in two different contexts.
pub proof fn lemma_group_partition(labels: Seq<Label>, dsrc: Option<Source>, x: Label)
    ensures
        ctx_count(group_ctxs_spec(labels, dsrc), x) <= seq_count(labels, x),
{
    let sorted = sort_labels_spec(labels);
    let all_false = Seq::new(labels.len(), |i: int| false);
    lemma_sort_labels_len(labels);
    lemma_sort_count(labels, x);
    lemma_unvisited_all_false(sorted, all_false, 0, x);
    assert(sorted.skip(0) =~= sorted);
    lemma_group_counts(sorted, dsrc, 0, all_false, x);
}

proof fn lemma_insert_sorted_all(l: Label, s: Seq<Label>, p: spec_fn(Label) -> bool)
    requires
        p(l),
        forall|k: int| 0 <= k < s.len() ==> #[trigger] p(s[k]),
    ensures
        forall|k: int|
            0 <= k < insert_sorted(l, s).len() ==> #[trigger] p(insert_sorted(l, s)[k]),
    decreases s.len(),
{
    lemma_insert_sorted_len(l, s);
    if s.len() == 0 {
        assert(insert_sorted(l, s)[0] == l);
    } else if l.range.start < s.last().range.start {
        assert(forall|k: int| 0 <= k < s.drop_last().len() ==> #[trigger] p(s.drop_last()[k]));
        lemma_insert_sorted_all(l, s.drop_last(), p);
        let inner = insert_sorted(l, s.drop_last());
        assert forall|k: int| 0 <= k < insert_sorted(l, s).len() implies #[trigger] p(
            insert_sorted(l, s)[k],
        ) by {
            if k < inner.len() {
                assert(insert_sorted(l, s)[k] == inner[k]);
            } else {
                assert(insert_sorted(l, s)[k] == s.last());
            }
        }
    } else {
        assert forall|k: int| 0 <= k < insert_sorted(l, s).len() implies #[trigger] p(
            insert_sorted(l, s)[k],
        ) by {
            if k < s.len() {
                assert(insert_sorted(l, s)[k] == s[k]);
            } else {
                assert(insert_sorted(l, s)[k] == l);
            }
        }
    }
}

proof fn lemma_sort_all(s: Seq<Label>, p: spec_fn(Label) -> bool)
    requires
        forall|k: int| 0 <= k < s.len() ==> #[trigger] p(s[k]),
    ensures
        forall|k: int|
            0 <= k < sort_labels_spec(s).len() ==> #[trigger] p(sort_labels_spec(s)[k]),
    decreases s.len(),
{
    if s.len() > 0 {
        assert(forall|k: int| 0 <= k < s.drop_last().len() ==> #[trigger] p(s.drop_last()[k]));
        lemma_sort_all(s.drop_last(), p);
        lemma_insert_sorted_all(s.last(), sort_labels_spec(s.drop_last()), p);
    }
}

proof fn lemma_group_from_single(
    sorted: Seq<Label>,
    dsrc: Option<Source>,
    idx: int,
    visited: Seq<bool>,
)
    requires
        0 <= idx <= sorted.len(),
        visited.len() == sorted.len(),
        forall|j: int| idx <= j < sorted.len() ==> !visited[j],
        forall|k: int|
            0 <= k < sorted.len() ==> (#[trigger] spec_resolved_source(sorted[k].source, dsrc))
                is Some && !spec_label_multiline(
                sorted[k],
                spec_resolved_source(sorted[k].source, dsrc)->0,
            ),
    ensures
        group_ctxs_from(sorted, dsrc, idx, visited).len() == sorted.len() - idx,
        forall|k: int|
            0 <= k < sorted.len() - idx ==> #[trigger] group_ctxs_from(
                sorted,
                dsrc,
                idx,
                visited,
            )[k] == (
                sorted[idx + k],
                Seq::<Label>::empty(),
                spec_resolved_source(sorted[idx + k].source, dsrc)->0,
            ),
    decreases sorted.len() - idx,
{
    if idx < sorted.len() {
        let parent = sorted[idx];
        let psrc = spec_resolved_source(parent.source, dsrc);
        let src = psrc->0;
        let vis1 = visited.update(idx, true);
        lemma_group_from_single(sorted, dsrc, idx + 1, vis1);
        let rest = group_ctxs_from(sorted, dsrc, idx + 1, vis1);
        let r = group_ctxs_from(sorted, dsrc, idx, visited);
        assert(r == seq![(parent, Seq::<Label>::empty(), src)] + rest);
        assert forall|k: int| 0 <= k < sorted.len() - idx implies #[trigger] r[k] == (
            sorted[idx + k],
            Seq::<Label>::empty(),
            spec_resolved_source(sorted[idx + k].source, dsrc)->0,
        ) by {
            if k == 0 {
                assert(r[0] == (parent, Seq::<Label>::empty(), src));
            } else {
                assert(r[k] == rest[k - 1]);
                assert(rest[(k - 1)] == (
                    sorted[idx + 1 + (k - 1)],
                    Seq::<Label>::empty(),
                    spec_resolved_source(sorted[idx + 1 + (k - 1)].source, dsrc)->0,
                ));
            }
        }
    }
}

/// Law: on a set of labels that all resolve to a source and all lie on a
/// single line, the grouping changes nothing: each label becomes its own
/// context, in sorted order, with no children, so grouping the result
/// again yields the same contexts.
pub proof fn lemma_group_single_line(labels: Seq<Label>, dsrc: Option<Source>)
    requires
        forall|i: int|
            0 <= i < labels.len() ==> (#[trigger] spec_resolved_source(labels[i].source, dsrc))
                is Some && !spec_label_multiline(
                labels[i],
                spec_resolved_source(labels[i].source, dsrc)->0,
            ),
    ensures
        group_ctxs_spec(labels, dsrc).len() == labels.len(),
        forall|k: int|
            0 <= k < labels.len() ==> #[trigger] group_ctxs_spec(labels, dsrc)[k] == (
                sort_labels_spec(labels)[k],
                Seq::<Label>::empty(),
                spec_resolved_source(sort_labels_spec(labels)[k].source, dsrc)->0,
            ),
{
    let p = |l: Label|
        spec_resolved_source(l.source, dsrc) is Some && !spec_label_multiline(
            l,
            spec_resolved_source(l.source, dsrc)->0,
        );
    assert(forall|k: int| 0 <= k < labels.len() ==> #[trigger] p(labels[k]));
    lemma_sort_all(labels, p);
    lemma_sort_labels_len(labels);
    let sorted = sort_labels_spec(labels);
    assert forall|k: int|
        0 <= k < sorted.len() implies (#[trigger] spec_resolved_source(sorted[k].source, dsrc))
        is Some && !spec_label_multiline(
        sorted[k],
        spec_resolved_source(sorted[k].source, dsrc)->0,
    ) by {
        assert(p(sorted[k]));
    }
    lemma_group_from_single(sorted, dsrc, 0, Seq::new(labels.len(), |i: int| false));
    assert forall|k: int| 0 <= k < labels.len() implies #[trigger] group_ctxs_spec(
        labels,
        dsrc,
    )[k] == (
        sort_labels_spec(labels)[k],
        Seq::<Label>::empty(),
        spec_resolved_source(sort_labels_spec(labels)[k].source, dsrc)->0,
    ) by {
        assert(group_ctxs_from(sorted, dsrc, 0, Seq::new(labels.len(), |i: int| false))[k] == (
            sorted[0 + k],
            Seq::<Label>::empty(),
            spec_resolved_source(sorted[0 + k].source, dsrc)->0,
        ));
    }
}

} // verus!
