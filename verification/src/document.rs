//! The document builder: groups annotated triples by subject, keeping ingest
//! order inside each group, and keeps the groups sorted by ascending
//! lexicographic order of their subject.  The result, together with a fixed
//! title and template identifier, is the render-ready document model.

use vstd::prelude::*;

use crate::model::{
    clone_opt_str, group_views, group_wf, IndexEntry, SubjectGroup, SubjectGroupModel, Triple,
    triple_views, TripleModel,
};
use crate::order::{lemma_lex_lt_trans, lemma_lex_trichotomy, lex_le, lex_lt, str_lt};

verus! {

/// The number of triples held by all groups together.
pub open spec fn total_triples(groups: Seq<SubjectGroupModel>) -> nat
    decreases groups.len(),
{
    if groups.len() == 0 {
        0
    } else {
        groups[0].triples.len() + total_triples(groups.skip(1))
    }
}

proof fn lemma_total_insert(gs: Seq<SubjectGroupModel>, p: int, g: SubjectGroupModel)
    requires
        0 <= p <= gs.len(),
    ensures
        total_triples(gs.insert(p, g)) == total_triples(gs) + g.triples.len(),
    decreases gs.len(),
{
    let gs2 = gs.insert(p, g);
    if p == 0 {
        assert(gs2[0] == g);
        assert(gs2.skip(1) =~= gs);
    } else {
        assert(gs2[0] == gs[0]);
        assert(gs2.skip(1) =~= gs.skip(1).insert(p - 1, g));
        lemma_total_insert(gs.skip(1), p - 1, g);
    }
}

proof fn lemma_total_update(gs: Seq<SubjectGroupModel>, p: int, g: SubjectGroupModel)
    requires
        0 <= p < gs.len(),
    ensures
        total_triples(gs.update(p, g)) == total_triples(gs) - gs[p].triples.len()
            + g.triples.len(),
    decreases gs.len(),
{
    let gs2 = gs.update(p, g);
    if p == 0 {
        assert(gs2[0] == g);
        assert(gs2.skip(1) =~= gs.skip(1));
    } else {
        assert(gs2[0] == gs[0]);
        assert(gs2.skip(1) =~= gs.skip(1).update(p - 1, g));
        lemma_total_update(gs.skip(1), p - 1, g);
    }
}

proof fn lemma_filter_push<A>(s: Seq<A>, pred: spec_fn(A) -> bool, x: A)
    ensures
        s.push(x).filter(pred) == if pred(x) {
            s.filter(pred).push(x)
        } else {
            s.filter(pred)
        },
{
    reveal(Seq::filter);
    assert(s.push(x).drop_last() =~= s);
    assert(s.push(x).last() == x);
}

proof fn lemma_filter_none<A>(s: Seq<A>, pred: spec_fn(A) -> bool)
    requires
        forall|k: int| 0 <= k < s.len() ==> !pred(#[trigger] s[k]),
    ensures
        s.filter(pred) == Seq::<A>::empty(),
    decreases s.len(),
{
    reveal(Seq::filter);
    if s.len() > 0 {
        assert(!pred(s.last()));
        assert forall|k: int| 0 <= k < s.drop_last().len() implies !pred(
            #[trigger] s.drop_last()[k],
        ) by {
            assert(s.drop_last()[k] == s[k]);
        }
        lemma_filter_none(s.drop_last(), pred);
    }
}

/// The predicate selecting triples with the given subject.
pub open spec fn has_subject(s: Seq<char>) -> spec_fn(TripleModel) -> bool {
    |t: TripleModel| t.subject == s
}

/// What the document builder guarantees of its groups, relative to the
/// sequence of input triples:
/// the groups are strictly sorted by subject, each group is well formed and
/// holds exactly the input triples bearing its subject in input order, every
/// input triple's subject has a group, and the group sizes sum up to the
/// input length.
pub open spec fn document_wf(input: Seq<TripleModel>, groups: Seq<SubjectGroupModel>) -> bool {
    &&& forall|i: int, j: int| 0 <= i < j < groups.len() ==> lex_lt(
        (#[trigger] groups[i]).subject,
        (#[trigger] groups[j]).subject,
    )
    &&& forall|j: int| 0 <= j < groups.len() ==> group_wf(#[trigger] groups[j])
    &&& forall|j: int| 0 <= j < groups.len() ==> (#[trigger] groups[j]).triples == input.filter(
        has_subject(groups[j].subject),
    )
    &&& forall|k: int|
        0 <= k < input.len() ==> exists|j: int|
            0 <= j < groups.len() && (#[trigger] groups[j]).subject == (#[trigger] input[k]).subject
    &&& total_triples(groups) == input.len()
}

/// Groups the triples by subject and returns the groups sorted by ascending
/// lexicographic order of subject; within a group the triples keep their
/// input order, and the group metadata comes from the group's first triple.
pub fn group_triples(triples: &Vec<Triple>) -> (groups: Vec<SubjectGroup>)
    ensures
        document_wf(triple_views(triples@), group_views(groups@)),
{
    let ghost tv = triple_views(triples@);
    let mut groups: Vec<SubjectGroup> = Vec::new();
    let mut i: usize = 0;
    proof {
        assert(tv.take(0) =~= Seq::<TripleModel>::empty());
        assert(group_views(groups@) =~= Seq::<SubjectGroupModel>::empty());
        assert(total_triples(group_views(groups@)) == 0);
    }
    while i < triples.len()
        invariant
            i <= triples@.len(),
            tv == triple_views(triples@),
            document_wf(tv.take(i as int), group_views(groups@)),
        decreases triples@.len() - i,
    {
        let ghost gv_old = group_views(groups@);
        let ghost tv_i = tv.take(i as int);
        let ghost tv_i1 = tv.take(i + 1);
        let ghost ts = tv[i as int].subject;
        proof {
            assert(tv_i1 =~= tv_i.push(tv[i as int]));
            assert(tv[i as int] == triples@[i as int]@);
        }
        let mut p: usize = 0;
        while p < groups.len() && str_lt(groups[p].subject.as_str(), triples[i].subject.as_str())
            invariant
                p <= groups@.len(),
                group_views(groups@) == gv_old,
                0 <= i < triples@.len(),
                tv == triple_views(triples@),
                ts == tv[i as int].subject,
                forall|k: int| 0 <= k < p ==> lex_lt((#[trigger] gv_old[k]).subject, ts),
            decreases groups@.len() - p,
        {
            assert(gv_old[p as int].subject == groups@[p as int]@.subject);
            p = p + 1;
        }
        let is_existing: bool = p < groups.len() && groups[p].subject == triples[i].subject;
        if is_existing {
            assert(gv_old[p as int].subject == ts);
            let mut g = groups.remove(p);
            g.triples.push(triples[i].duplicate());
            groups.insert(p, g);
            proof {
                let ghost g2 = g@;
                let gv_new = group_views(groups@);
                assert(gv_new =~= gv_old.update(p as int, g2)) by {
                    assert forall|k: int| 0 <= k < gv_new.len() implies gv_new[k] == gv_old.update(
                        p as int,
                        g2,
                    )[k] by {}
                }
                assert(g2.subject == ts);
                assert(g2.triples =~= gv_old[p as int].triples.push(tv[i as int]));
                lemma_filter_push(tv_i, has_subject(ts), tv[i as int]);
                assert(g2.triples == tv_i1.filter(has_subject(ts)));
                assert forall|j: int| 0 <= j < gv_new.len() && j != p implies (#[trigger] gv_new[j])
                    == gv_old[j] && gv_old[j].subject != ts by {
                    lemma_lex_trichotomy(gv_old[j].subject, ts);
                    if j > p {
                        lemma_lex_trichotomy(ts, gv_old[j].subject);
                    }
                }
                assert forall|j: int| 0 <= j < gv_new.len() implies (#[trigger] gv_new[j]).triples
                    == tv_i1.filter(has_subject(gv_new[j].subject)) by {
                    if j != p {
                        lemma_filter_push(tv_i, has_subject(gv_old[j].subject), tv[i as int]);
                    }
                }
                assert(group_wf(g2));
                lemma_total_update(gv_old, p as int, g2);
                assert forall|k: int| 0 <= k < tv_i1.len() implies exists|j: int|
                    0 <= j < gv_new.len() && (#[trigger] gv_new[j]).subject == (
                    #[trigger] tv_i1[k]).subject by {
                    if k < i {
                        let j = choose|j: int|
                            0 <= j < gv_old.len() && (#[trigger] gv_old[j]).subject
                                == tv_i[k].subject;
                        assert(gv_new[j].subject == tv_i1[k].subject);
                    } else {
                        assert(gv_new[p as int].subject == tv_i1[k].subject);
                    }
                }
                assert(document_wf(tv_i1, gv_new));
            }
        } else {
            proof {
                if p < groups@.len() {
                    assert(gv_old[p as int].subject == groups@[p as int]@.subject);
                    lemma_lex_trichotomy(gv_old[p as int].subject, ts);
                    assert(lex_lt(ts, gv_old[p as int].subject));
                }
                assert forall|j: int| 0 <= j < gv_old.len() implies ((j < p ==> lex_lt(
                    (#[trigger] gv_old[j]).subject,
                    ts,
                )) && (j >= p ==> lex_lt(ts, gv_old[j].subject)) && gv_old[j].subject != ts) by {
                    if j < p {
                        lemma_lex_trichotomy(gv_old[j].subject, ts);
                    } else {
                        if j > p {
                            lemma_lex_lt_trans(ts, gv_old[p as int].subject, gv_old[j].subject);
                        }
                        lemma_lex_trichotomy(ts, gv_old[j].subject);
                    }
                }
                assert forall|k: int| 0 <= k < tv_i.len() implies !(has_subject(ts)(
                    #[trigger] tv_i[k],
                )) by {
                    if tv_i[k].subject == ts {
                        let j = choose|j: int|
                            0 <= j < gv_old.len() && (#[trigger] gv_old[j]).subject
                                == tv_i[k].subject;
                        assert(false);
                    }
                }
                lemma_filter_none(tv_i, has_subject(ts));
            }
            let sub = triples[i].subject.clone();
            let lab = triples[i].subject_label.clone();
            let link = clone_opt_str(&triples[i].subject_link);
            let mut tvec: Vec<Triple> = Vec::new();
            tvec.push(triples[i].duplicate());
            let g = SubjectGroup { subject: sub, subject_label: lab, subject_link: link, triples: tvec };
            let ghost g2 = g@;
            groups.insert(p, g);
            proof {
                let gv_new = group_views(groups@);
                assert(gv_new =~= gv_old.insert(p as int, g2)) by {
                    assert forall|k: int| 0 <= k < gv_new.len() implies gv_new[k] == gv_old.insert(
                        p as int,
                        g2,
                    )[k] by {}
                }
                assert(g2.subject == ts);
                assert(g2.triples =~= Seq::<TripleModel>::empty().push(tv[i as int]));
                lemma_filter_push(tv_i, has_subject(ts), tv[i as int]);
                assert(g2.triples == tv_i1.filter(has_subject(ts)));
                assert(group_wf(g2));
                assert forall|m: int, n: int| 0 <= m < n < gv_new.len() implies lex_lt(
                    (#[trigger] gv_new[m]).subject,
                    (#[trigger] gv_new[n]).subject,
                ) by {
                    if n < p {
                    } else if m > p {
                        assert(gv_new[m] == gv_old[m - 1] && gv_new[n] == gv_old[n - 1]);
                    } else if m < p && n > p {
                        assert(gv_new[m] == gv_old[m] && gv_new[n] == gv_old[n - 1]);
                    } else if m == p {
                        assert(gv_new[m].subject == ts && gv_new[n] == gv_old[n - 1]);
                    } else if n == p {
                        assert(gv_new[m] == gv_old[m] && gv_new[n].subject == ts);
                    }
                }
                assert forall|j: int| 0 <= j < gv_new.len() implies (#[trigger] gv_new[j]).triples
                    == tv_i1.filter(has_subject(gv_new[j].subject)) && group_wf(gv_new[j]) by {
                    if j < p {
                        assert(gv_new[j] == gv_old[j]);
                        lemma_filter_push(tv_i, has_subject(gv_old[j].subject), tv[i as int]);
                    } else if j > p {
                        assert(gv_new[j] == gv_old[j - 1]);
                        lemma_filter_push(tv_i, has_subject(gv_old[j - 1].subject), tv[i as int]);
                    }
                }
                lemma_total_insert(gv_old, p as int, g2);
                assert forall|k: int| 0 <= k < tv_i1.len() implies exists|j: int|
                    0 <= j < gv_new.len() && (#[trigger] gv_new[j]).subject == (
                    #[trigger] tv_i1[k]).subject by {
                    if k < i {
                        let j = choose|j: int|
                            0 <= j < gv_old.len() && (#[trigger] gv_old[j]).subject
                                == tv_i[k].subject;
                        if j < p {
                            assert(gv_new[j].subject == tv_i1[k].subject);
                        } else {
                            assert(gv_new[j + 1].subject == tv_i1[k].subject);
                        }
                    } else {
                        assert(gv_new[p as int].subject == tv_i1[k].subject);
                    }
                }
                assert(document_wf(tv_i1, gv_new));
            }
        }
        i = i + 1;
    }
    proof {
        assert(tv.take(i as int) =~= tv);
    }
    groups
}

/// A render-ready page document: a fixed title, the fixed template
/// identifier the rendering collaborator must use, and the sorted subject
/// groups.
pub struct Document {
    pub title: String,
    pub template: String,
    pub subject_groups: Vec<SubjectGroup>,
}

/// Builds the document model for one file's triples: groups sorted by
/// subject, the fixed page title, and the fixed template identifier.
pub fn build_document(triples: &Vec<Triple>) -> (doc: Document)
    ensures
        doc.title@ == "Definitions"@,
        doc.template@ == "page"@,
        document_wf(triple_views(triples@), group_views(doc.subject_groups@)),
{
    Document {
        title: String::from_str("Definitions"),
        template: String::from_str("page"),
        subject_groups: group_triples(triples),
    }
}

/// The render-ready index document: a fixed title, the fixed template
/// identifier, and one entry per converted file in discovery order.
pub struct IndexDocument {
    pub title: String,
    pub template: String,
    pub entries: Vec<IndexEntry>,
}

/// Builds the index document: the entries are passed through unchanged, in
/// the order they accumulated over the run.
pub fn build_index_document(entries: Vec<IndexEntry>) -> (doc: IndexDocument)
    ensures
        doc.title@ == "Index of RDF Files"@,
        doc.template@ == "index"@,
        doc.entries@ == entries@,
{
    IndexDocument {
        title: String::from_str("Index of RDF Files"),
        template: String::from_str("index"),
        entries,
    }
}

/// Grouping is a partition of the input triples: every input triple lies in
/// a group bearing its subject, group subjects are pairwise distinct, no
/// triple value lies in two groups, and the group sizes sum to the number of
/// input triples.
pub proof fn lemma_grouping_is_partition(input: Seq<TripleModel>, groups: Seq<SubjectGroupModel>)
    requires
        document_wf(input, groups),
    ensures
        forall|k: int|
            0 <= k < input.len() ==> exists|j: int|
                0 <= j < groups.len() && (#[trigger] groups[j]).triples.contains(
                    #[trigger] input[k],
                ),
        forall|j1: int, j2: int| 0 <= j1 < j2 < groups.len() ==> (#[trigger] groups[j1]).subject
            != (#[trigger] groups[j2]).subject,
        forall|j1: int, j2: int, t: TripleModel|
            #![trigger groups[j1].triples.contains(t), groups[j2].triples.contains(t)]
            0 <= j1 < groups.len() && 0 <= j2 < groups.len() && j1 != j2
                && groups[j1].triples.contains(t) ==> !groups[j2].triples.contains(t),
        total_triples(groups) == input.len(),
{
    assert forall|j1: int, j2: int| 0 <= j1 < j2 < groups.len() implies (
    #[trigger] groups[j1]).subject != (#[trigger] groups[j2]).subject by {
        lemma_lex_trichotomy(groups[j1].subject, groups[j2].subject);
    }
    assert forall|k: int| 0 <= k < input.len() implies exists|j: int|
        0 <= j < groups.len() && (#[trigger] groups[j]).triples.contains(#[trigger] input[k]) by {
        let j = choose|j: int|
            0 <= j < groups.len() && (#[trigger] groups[j]).subject == input[k].subject;
        input.lemma_filter_contains(has_subject(groups[j].subject), k);
        assert(groups[j].triples.contains(input[k]));
    }
    assert forall|j1: int, j2: int, t: TripleModel|
        #![trigger groups[j1].triples.contains(t), groups[j2].triples.contains(t)]
        0 <= j1 < groups.len() && 0 <= j2 < groups.len() && j1 != j2
            && groups[j1].triples.contains(t) implies !groups[j2].triples.contains(t) by {
        if groups[j2].triples.contains(t) {
            let k1 = choose|k: int|
                0 <= k < groups[j1].triples.len() && groups[j1].triples[k] == t;
            let k2 = choose|k: int|
                0 <= k < groups[j2].triples.len() && groups[j2].triples[k] == t;
            assert(groups[j1].triples[k1].subject == groups[j1].subject);
            assert(groups[j2].triples[k2].subject == groups[j2].subject);
            if j1 < j2 {
                lemma_lex_trichotomy(groups[j1].subject, groups[j2].subject);
            } else {
                lemma_lex_trichotomy(groups[j2].subject, groups[j1].subject);
            }
        }
    }
}

/// Subject groups appear in non-decreasing (indeed strictly increasing)
/// lexicographic order of their subject.
pub proof fn lemma_groups_sorted(input: Seq<TripleModel>, groups: Seq<SubjectGroupModel>)
    requires
        document_wf(input, groups),
    ensures
        forall|i: int, j: int| 0 <= i <= j < groups.len() ==> lex_le(
            (#[trigger] groups[i]).subject,
            (#[trigger] groups[j]).subject,
        ),
{
    assert forall|i: int, j: int| 0 <= i <= j < groups.len() implies lex_le(
        (#[trigger] groups[i]).subject,
        (#[trigger] groups[j]).subject,
    ) by {
        if i == j {
            lemma_lex_trichotomy(groups[i].subject, groups[j].subject);
        } else {
            lemma_lex_trichotomy(groups[j].subject, groups[i].subject);
        }
    }
}

} // verus!
