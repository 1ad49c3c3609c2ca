//! The document model: triples, subject groups, index entries, and the
//! render-ready documents handed to the template collaborator.

use vstd::prelude::*;

verus! {

/// The view of an optional owned string.
pub open spec fn opt_str_view(o: Option<String>) -> Option<Seq<char>> {
    match o {
        Option::None => Option::None,
        Option::Some(s) => Option::Some(s@),
    }
}

/// Mathematical model of a [`Triple`]: every field as a character sequence.
#[verifier::ext_equal]
pub ghost struct TripleModel {
    pub subject: Seq<char>,
    pub predicate: Seq<char>,
    pub object: Seq<char>,
    pub subject_link: Option<Seq<char>>,
    pub subject_label: Seq<char>,
    pub predicate_link: Option<Seq<char>>,
    pub object_link: Option<Seq<char>>,
}

/// One RDF statement.  `subject`, `predicate` and `object` hold the values to
/// display.  When a field's value matched a known namespace prefix, the
/// corresponding `*_link` field holds the original full URL; the predicate
/// and object values are then rewritten to the shortened form, while the
/// subject keeps its full value and the shortened form goes to
/// `subject_label`.
pub struct Triple {
    pub subject: String,
    pub predicate: String,
    pub object: String,
    pub subject_link: Option<String>,
    pub subject_label: String,
    pub predicate_link: Option<String>,
    pub object_link: Option<String>,
}

impl View for Triple {
    type V = TripleModel;

    open spec fn view(&self) -> TripleModel {
        TripleModel {
            subject: self.subject@,
            predicate: self.predicate@,
            object: self.object@,
            subject_link: opt_str_view(self.subject_link),
            subject_label: self.subject_label@,
            predicate_link: opt_str_view(self.predicate_link),
            object_link: opt_str_view(self.object_link),
        }
    }
}

/// The per-field invariant of an annotated triple: either no link was
/// recorded, or the link holds a full value from which some matched prefix
/// was removed to obtain the displayed form.
pub open spec fn triple_wf(t: TripleModel) -> bool {
    &&& match t.subject_link {
        Option::None => t.subject_label == t.subject,
        Option::Some(l) => l == t.subject && exists|p: Seq<char>|
            t.subject == #[trigger] (p + t.subject_label),
    }
    &&& match t.predicate_link {
        Option::None => true,
        Option::Some(l) => exists|p: Seq<char>| l == #[trigger] (p + t.predicate),
    }
    &&& match t.object_link {
        Option::None => true,
        Option::Some(l) => exists|p: Seq<char>| l == #[trigger] (p + t.object),
    }
}

impl Default for Triple {
    /// A triple of empty strings with no links.
    fn default() -> (r: Self)
        ensures
            r@.subject == Seq::<char>::empty(),
            r@.predicate == Seq::<char>::empty(),
            r@.object == Seq::<char>::empty(),
            r@.subject_label == Seq::<char>::empty(),
            r@.subject_link is None,
            r@.predicate_link is None,
            r@.object_link is None,
            triple_wf(r@),
    {
        Triple {
            subject: String::new(),
            predicate: String::new(),
            object: String::new(),
            predicate_link: None,
            subject_link: None,
            subject_label: String::new(),
            object_link: None,
        }
    }
}

/// The views of a sequence of triples.
pub open spec fn triple_views(s: Seq<Triple>) -> Seq<TripleModel> {
    s.map_values(|t: Triple| t@)
}

/// Mathematical model of a [`SubjectGroup`].
#[verifier::ext_equal]
pub ghost struct SubjectGroupModel {
    pub subject: Seq<char>,
    pub subject_label: Seq<char>,
    pub subject_link: Option<Seq<char>>,
    pub triples: Seq<TripleModel>,
}

/// All triples sharing one subject, in ingest order, with the group-level
/// subject metadata copied from the first triple of the group.
pub struct SubjectGroup {
    pub subject: String,
    pub subject_label: String,
    pub subject_link: Option<String>,
    pub triples: Vec<Triple>,
}

impl View for SubjectGroup {
    type V = SubjectGroupModel;

    open spec fn view(&self) -> SubjectGroupModel {
        SubjectGroupModel {
            subject: self.subject@,
            subject_label: self.subject_label@,
            subject_link: opt_str_view(self.subject_link),
            triples: triple_views(self.triples@),
        }
    }
}

/// The views of a sequence of subject groups.
pub open spec fn group_views(s: Seq<SubjectGroup>) -> Seq<SubjectGroupModel> {
    s.map_values(|g: SubjectGroup| g@)
}

/// A group is well formed when it is non-empty, every triple in it carries
/// the group's subject, and the group metadata equals that of its first
/// triple.
pub open spec fn group_wf(g: SubjectGroupModel) -> bool {
    &&& g.triples.len() > 0
    &&& forall|k: int| 0 <= k < g.triples.len() ==> (#[trigger] g.triples[k]).subject == g.subject
    &&& g.subject_label == g.triples[0].subject_label
    &&& g.subject_link == g.triples[0].subject_link
}

/// One raw statement as extracted from the Turtle source, before any link
/// annotation: subject, predicate and object as plain strings.
pub struct RawStatement {
    pub subject: String,
    pub predicate: String,
    pub object: String,
}

/// The model of a freshly ingested, unannotated triple: no links recorded,
/// and the subject label still equal to the raw subject.
pub open spec fn fresh_triple_model(s: Seq<char>, p: Seq<char>, o: Seq<char>) -> TripleModel {
    TripleModel {
        subject: s,
        predicate: p,
        object: o,
        subject_link: Option::None,
        subject_label: s,
        predicate_link: Option::None,
        object_link: Option::None,
    }
}

/// Clones an optional string; the view is unchanged.
pub fn clone_opt_str(o: &Option<String>) -> (r: Option<String>)
    ensures
        opt_str_view(r) == opt_str_view(*o),
{
    match o {
        Option::None => Option::None,
        Option::Some(s) => Option::Some(s.clone()),
    }
}

impl Triple {
    /// An exact copy; the model is unchanged.
    pub fn duplicate(&self) -> (r: Triple)
        ensures
            r@ == self@,
    {
        Triple {
            subject: self.subject.clone(),
            predicate: self.predicate.clone(),
            object: self.object.clone(),
            subject_link: clone_opt_str(&self.subject_link),
            subject_label: self.subject_label.clone(),
            predicate_link: clone_opt_str(&self.predicate_link),
            object_link: clone_opt_str(&self.object_link),
        }
    }

    /// A freshly ingested triple: no links, label equal to the subject.
    pub fn from_statement(st: RawStatement) -> (r: Triple)
        ensures
            r@ == fresh_triple_model(st.subject@, st.predicate@, st.object@),
    {
        Triple {
            subject_label: st.subject.clone(),
            subject: st.subject,
            predicate: st.predicate,
            object: st.object,
            subject_link: None,
            predicate_link: None,
            object_link: None,
        }
    }
}

/// One converted file's record on the index page: the original file name and
/// the output-relative path of the generated HTML file.
pub struct IndexEntry {
    pub path: String,
    pub name: String,
}

impl IndexEntry {
    pub fn new(name: String, path: String) -> (r: Self)
        ensures
            r.name@ == name@,
            r.path@ == path@,
    {
        IndexEntry { name, path }
    }
}

} // verus!
