//! Link resolution: a triple field whose value is an absolute URL starting
//! with a known namespace prefix is turned into a link, and the displayed
//! value is shortened by removing the matched prefix.  Prefixes are tried in
//! the order supplied; the first match wins.

use vstd::prelude::*;

use crate::model::{fresh_triple_model, RawStatement, Triple, TripleModel, triple_wf};
use crate::order::{str_skip_chars, str_starts_with, str_views};

verus! {

/// Whether a string is a syntactically valid absolute URL.  Named, not
/// spelled out: the grammar lives in the `url` crate.
pub uninterp spec fn spec_is_valid_url(s: Seq<char>) -> bool;

/// Relies on `url::Url::parse`: whether a string parses as an absolute URL
/// depends on the string alone.
#[verifier::external_body]
pub(crate) fn is_valid_url(s: &str) -> (r: bool)
    ensures
        r == spec_is_valid_url(s@),
{
    url::Url::parse(s).is_ok()
}

/// The first prefix in `prefixes` (in order) that the value starts with.
pub open spec fn first_match(value: Seq<char>, prefixes: Seq<Seq<char>>) -> Option<Seq<char>>
    decreases prefixes.len(),
{
    if prefixes.len() == 0 {
        Option::None
    } else if prefixes[0].is_prefix_of(value) {
        Option::Some(prefixes[0])
    } else {
        first_match(value, prefixes.skip(1))
    }
}

/// The prefix that link resolution removes from `value`, if any: the first
/// matching prefix, considered only when the value is a valid absolute URL.
pub open spec fn matched_prefix(value: Seq<char>, prefixes: Seq<Seq<char>>) -> Option<Seq<char>> {
    if spec_is_valid_url(value) {
        first_match(value, prefixes)
    } else {
        Option::None
    }
}

/// The displayed value after link resolution: the matched prefix removed, or
/// the value untouched when nothing matched.
pub open spec fn resolved_value(value: Seq<char>, prefixes: Seq<Seq<char>>) -> Seq<char> {
    match matched_prefix(value, prefixes) {
        Option::Some(p) => value.skip(p.len() as int),
        Option::None => value,
    }
}

/// The link after resolution: the full original value on a match, the
/// previous link state otherwise.
pub open spec fn resolved_link(
    value: Seq<char>,
    old_link: Option<Seq<char>>,
    prefixes: Seq<Seq<char>>,
) -> Option<Seq<char>> {
    match matched_prefix(value, prefixes) {
        Option::Some(p) => Option::Some(value),
        Option::None => old_link,
    }
}

/// Link resolution on a whole triple.  The subject keeps its full value and
/// gets a shortened `subject_label`; predicate and object are shortened in
/// place.
pub open spec fn resolve_triple(t: TripleModel, prefixes: Seq<Seq<char>>) -> TripleModel {
    TripleModel {
        subject: t.subject,
        subject_link: resolved_link(t.subject, t.subject_link, prefixes),
        subject_label: match matched_prefix(t.subject, prefixes) {
            Option::Some(p) => t.subject.skip(p.len() as int),
            Option::None => t.subject_label,
        },
        predicate: resolved_value(t.predicate, prefixes),
        predicate_link: resolved_link(t.predicate, t.predicate_link, prefixes),
        object: resolved_value(t.object, prefixes),
        object_link: resolved_link(t.object, t.object_link, prefixes),
    }
}

/// A first match is in the list and is a prefix of the value.
pub proof fn lemma_first_match_is_prefix(value: Seq<char>, prefixes: Seq<Seq<char>>)
    ensures
        match first_match(value, prefixes) {
            Option::Some(p) => p.is_prefix_of(value) && prefixes.contains(p),
            Option::None => true,
        },
    decreases prefixes.len(),
{
    if prefixes.len() > 0 && !prefixes[0].is_prefix_of(value) {
        lemma_first_match_is_prefix(value, prefixes.skip(1));
        match first_match(value, prefixes.skip(1)) {
            Option::Some(p) => {
                let k = choose|k: int| 0 <= k < prefixes.skip(1).len() && prefixes.skip(1)[k] == p;
                assert(prefixes[k + 1] == p);
            },
            Option::None => {},
        }
    }
}

/// If no entry of the list is a prefix of the value, there is no first match.
pub proof fn lemma_no_prefix_no_match(value: Seq<char>, prefixes: Seq<Seq<char>>)
    requires
        forall|k: int| 0 <= k < prefixes.len() ==> !(#[trigger] prefixes[k]).is_prefix_of(value),
    ensures
        first_match(value, prefixes) is None,
    decreases prefixes.len(),
{
    if prefixes.len() > 0 {
        assert(!prefixes[0].is_prefix_of(value));
        assert forall|k: int| 0 <= k < prefixes.skip(1).len() implies !(#[trigger] prefixes.skip(
            1,
        )[k]).is_prefix_of(value) by {
            assert(prefixes.skip(1)[k] == prefixes[k + 1]);
        }
        lemma_no_prefix_no_match(value, prefixes.skip(1));
    }
}

/// A prefix followed by what remains after removing it gives back the value.
pub proof fn lemma_prefix_plus_skip(p: Seq<char>, v: Seq<char>)
    requires
        p.is_prefix_of(v),
    ensures
        v == p + v.skip(p.len() as int),
{
    assert(v =~= p + v.skip(p.len() as int));
}

/// Finds the index of the first supplied prefix that the value starts with.
fn find_first_match(value: &String, prefixes: &Vec<String>) -> (r: Option<usize>)
    ensures
        match r {
            Option::Some(j) => j < prefixes@.len() && first_match(value@, str_views(prefixes@))
                == Option::Some(prefixes@[j as int]@) && prefixes@[j as int]@.is_prefix_of(value@),
            Option::None => first_match(value@, str_views(prefixes@)) is None,
        },
{
    let ghost pviews = str_views(prefixes@);
    let mut j: usize = 0;
    proof {
        assert(pviews.skip(0) =~= pviews);
    }
    while j < prefixes.len()
        invariant
            j <= prefixes@.len(),
            pviews == str_views(prefixes@),
            first_match(value@, pviews) == first_match(value@, pviews.skip(j as int)),
        decreases prefixes@.len() - j,
    {
        assert(pviews[j as int] == prefixes@[j as int]@);
        if str_starts_with(value.as_str(), prefixes[j].as_str()) {
            assert(pviews.skip(j as int)[0] == pviews[j as int]);
            return Some(j);
        }
        proof {
            assert(pviews.skip(j as int)[0] == pviews[j as int]);
            assert(pviews.skip(j as int).skip(1) =~= pviews.skip(j + 1));
        }
        j = j + 1;
    }
    None
}

/// Annotates one triple in place: for each of subject, predicate and object,
/// if the value is a valid absolute URL and starts with one of the supplied
/// prefixes, the first matching prefix (in the order supplied) is removed
/// from the displayed form and the full value is recorded as a link.
pub fn update_triple_with_links(triple: &mut Triple, prefixes: &Vec<String>)
    ensures
        final(triple)@ == resolve_triple(old(triple)@, str_views(prefixes@)),
{
    let ghost pviews = str_views(prefixes@);
    if is_valid_url(triple.subject.as_str()) {
        match find_first_match(&triple.subject, prefixes) {
            Some(j) => {
                let plen: usize = prefixes[j].as_str().unicode_len();
                assert(prefixes@[j as int]@.is_prefix_of(triple.subject@));
                triple.subject_link = Some(triple.subject.clone());
                triple.subject_label = str_skip_chars(triple.subject.as_str(), plen);
            },
            None => {},
        }
    }
    if is_valid_url(triple.predicate.as_str()) {
        match find_first_match(&triple.predicate, prefixes) {
            Some(j) => {
                let plen: usize = prefixes[j].as_str().unicode_len();
                assert(prefixes@[j as int]@.is_prefix_of(triple.predicate@));
                triple.predicate_link = Some(triple.predicate.clone());
                triple.predicate = str_skip_chars(triple.predicate.as_str(), plen);
            },
            None => {},
        }
    }
    if is_valid_url(triple.object.as_str()) {
        match find_first_match(&triple.object, prefixes) {
            Some(j) => {
                let plen: usize = prefixes[j].as_str().unicode_len();
                assert(prefixes@[j as int]@.is_prefix_of(triple.object@));
                triple.object_link = Some(triple.object.clone());
                triple.object = str_skip_chars(triple.object.as_str(), plen);
            },
            None => {},
        }
    }
    proof {
        assert(final(triple)@ =~= resolve_triple(old(triple)@, pviews));
    }
}

/// Resolving a freshly ingested triple yields a well-formed one: each linked
/// field's displayed form is its full value with a matched prefix removed.
pub proof fn lemma_resolve_fresh_wf(t: TripleModel, prefixes: Seq<Seq<char>>)
    requires
        t.subject_link is None,
        t.predicate_link is None,
        t.object_link is None,
        t.subject_label == t.subject,
    ensures
        triple_wf(resolve_triple(t, prefixes)),
{
    let r = resolve_triple(t, prefixes);
    lemma_first_match_is_prefix(t.subject, prefixes);
    lemma_first_match_is_prefix(t.predicate, prefixes);
    lemma_first_match_is_prefix(t.object, prefixes);
    match matched_prefix(t.subject, prefixes) {
        Option::Some(p) => {
            lemma_prefix_plus_skip(p, t.subject);
            assert(t.subject == p + r.subject_label);
        },
        Option::None => {},
    }
    match matched_prefix(t.predicate, prefixes) {
        Option::Some(p) => {
            lemma_prefix_plus_skip(p, t.predicate);
            assert(t.predicate == p + r.predicate);
        },
        Option::None => {},
    }
    match matched_prefix(t.object, prefixes) {
        Option::Some(p) => {
            lemma_prefix_plus_skip(p, t.object);
            assert(t.object == p + r.object);
        },
        Option::None => {},
    }
}

/// Link resolution is idempotent: resolving an already-resolved triple with
/// the same prefixes changes nothing.  The premises exclude the one corner
/// where this fails: a shortened predicate or object value that is itself
/// again a valid URL starting with a known prefix.  The subject needs no
/// premise, since its full value is never rewritten.
pub proof fn lemma_resolve_idempotent(t: TripleModel, prefixes: Seq<Seq<char>>)
    requires
        matched_prefix(resolved_value(t.predicate, prefixes), prefixes) is None,
        matched_prefix(resolved_value(t.object, prefixes), prefixes) is None,
    ensures
        resolve_triple(resolve_triple(t, prefixes), prefixes) == resolve_triple(t, prefixes),
{
    let r = resolve_triple(t, prefixes);
    let r2 = resolve_triple(r, prefixes);
    assert(r.subject == t.subject);
    assert(r2 =~= r);
}

/// A field whose value has no matching prefix keeps its link state and its
/// displayed value untouched.
pub proof fn lemma_unmatched_field_unchanged(
    value: Seq<char>,
    link: Option<Seq<char>>,
    prefixes: Seq<Seq<char>>,
)
    requires
        forall|k: int| 0 <= k < prefixes.len() ==> !(#[trigger] prefixes[k]).is_prefix_of(value),
    ensures
        resolved_value(value, prefixes) == value,
        resolved_link(value, link, prefixes) == link,
{
    lemma_no_prefix_no_match(value, prefixes);
}

/// Converts raw statements into annotated triples, using the supplied
/// prefixes: each output triple is the resolution of a fresh triple made of
/// the statement's fields.
pub fn annotate_statements(stmts: &Vec<RawStatement>, prefixes: &Vec<String>) -> (r: Vec<Triple>)
    ensures
        r@.len() == stmts@.len(),
        forall|k: int| 0 <= k < r@.len() ==> (#[trigger] r@[k])@ == resolve_triple(
            fresh_triple_model(stmts@[k].subject@, stmts@[k].predicate@, stmts@[k].object@),
            str_views(prefixes@),
        ),
        forall|k: int| 0 <= k < r@.len() ==> triple_wf((#[trigger] r@[k])@),
{
    let mut r: Vec<Triple> = Vec::new();
    let mut i: usize = 0;
    while i < stmts.len()
        invariant
            i <= stmts@.len(),
            r@.len() == i,
            forall|k: int| 0 <= k < i ==> (#[trigger] r@[k])@ == resolve_triple(
                fresh_triple_model(stmts@[k].subject@, stmts@[k].predicate@, stmts@[k].object@),
                str_views(prefixes@),
            ),
            forall|k: int| 0 <= k < i ==> triple_wf((#[trigger] r@[k])@),
        decreases stmts@.len() - i,
    {
        let st = RawStatement {
            subject: stmts[i].subject.clone(),
            predicate: stmts[i].predicate.clone(),
            object: stmts[i].object.clone(),
        };
        let mut t = Triple::from_statement(st);
        update_triple_with_links(&mut t, prefixes);
        proof {
            lemma_resolve_fresh_wf(
                fresh_triple_model(
                    stmts@[i as int].subject@,
                    stmts@[i as int].predicate@,
                    stmts@[i as int].object@,
                ),
                str_views(prefixes@),
            );
        }
        r.push(t);
        i = i + 1;
    }
    r
}

} // verus!
