//! Turtle ingest: streams a Turtle document through the rio_turtle parser
//! step by step.  Each step may yield statements and may add namespace
//! prefixes; the statements of a step are annotated with the prefixes known
//! once that step completed, so later prefix declarations do not apply to
//! earlier triples.

use vstd::prelude::*;

use crate::document::{build_document, Document, document_wf};
use crate::links::annotate_statements;
use crate::model::{group_views, RawStatement, Triple, triple_views, triple_wf};
use crate::order::sort_strings;

verus! {

/// A streaming Turtle parser over borrowed input bytes.  The inner
/// `rio_turtle::TurtleParser` is opaque: everything the library learns about
/// parsed data comes through the contracts of the methods below.
#[verifier::external_body]
struct TurtleSource<'a> {
    parser: rio_turtle::TurtleParser<&'a [u8]>,
}

impl<'a> TurtleSource<'a> {
    /// Relies on `rio_turtle::TurtleParser::new`: builds a streaming parser
    /// over the given bytes, with no base IRI.
    #[verifier::external_body]
    fn new(input: &'a [u8]) -> TurtleSource<'a> {
        TurtleSource { parser: rio_turtle::TurtleParser::new(input, None) }
    }

    /// Relies on `rio_api::parser::TriplesParser::parse_step`: parses one
    /// chunk of the document and appends one raw statement per triple it
    /// yields.  Named nodes contribute their IRI, blank nodes their
    /// serialized identifier, literals their serialized textual form, and
    /// unsupported nested-triple terms an empty string.  A step that fails
    /// to parse yields whatever statements its callback saw; the error is
    /// dropped so that one malformed statement does not end the file's
    /// conversion.
    #[verifier::external_body]
    fn step(&mut self, out: &mut Vec<RawStatement>)
        ensures
            old(out)@.is_prefix_of(final(out)@),
    {
        let _ = rio_api::parser::TriplesParser::parse_step(&mut self.parser, &mut |t: rio_api::model::Triple<'_>| {
            let subject = match t.subject {
                rio_api::model::Subject::NamedNode(n) => n.iri.to_string(),
                rio_api::model::Subject::BlankNode(b) => b.to_string(),
                rio_api::model::Subject::Triple(_) => String::new(),
            };
            let object = match t.object {
                rio_api::model::Term::NamedNode(n) => n.iri.to_string(),
                rio_api::model::Term::Literal(l) => l.to_string(),
                _ => String::new(),
            };
            out.push(RawStatement { subject, predicate: t.predicate.iri.to_string(), object });
            Ok::<(), rio_turtle::TurtleError>(())
        });
    }

    /// Relies on `rio_turtle::TurtleParser::prefixes`: the prefix URL values
    /// declared so far, in the unspecified iteration order of the parser's
    /// map.
    #[verifier::external_body]
    fn prefixes(&self) -> (r: Vec<String>) {
        self.parser.prefixes().values().cloned().collect()
    }

    /// Relies on `rio_api::parser::TriplesParser::is_end`: whether the
    /// parser has consumed the whole input.
    #[verifier::external_body]
    fn is_end(&self) -> (r: bool) {
        rio_api::parser::TriplesParser::is_end(&self.parser)
    }
}

/// Parses a Turtle document and returns its annotated triples, in order of
/// appearance.  Each step's triples are annotated using the prefixes known
/// when that step completed, taken in ascending lexicographic order so that
/// first-match prefix selection is deterministic.  Statements of a malformed
/// step are skipped and parsing continues to the end of the input.
pub fn ingest_turtle(input: &str) -> (triples: Vec<Triple>)
    ensures
        forall|k: int| 0 <= k < triples@.len() ==> triple_wf((#[trigger] triples@[k])@),
{
    let bytes: &[u8] = input.as_bytes();
    let mut parser = TurtleSource::new(bytes);
    let mut triples: Vec<Triple> = Vec::new();
    // Every parse step that has not yet reached the end of the input
    // consumes at least one byte, so the input length bounds the number of
    // steps; the fuel counter makes that bound explicit.
    let mut fuel: usize = bytes.len();
    loop
        invariant
            forall|k: int| 0 <= k < triples@.len() ==> triple_wf((#[trigger] triples@[k])@),
        decreases fuel,
    {
        let mut raw: Vec<RawStatement> = Vec::new();
        parser.step(&mut raw);
        let prefix_values = parser.prefixes();
        let prefixes = sort_strings(&prefix_values);
        let mut annotated = annotate_statements(&raw, &prefixes);
        let ghost pre = triples@;
        let ghost ann = annotated@;
        triples.append(&mut annotated);
        proof {
            assert forall|k: int| 0 <= k < triples@.len() implies triple_wf(
                (#[trigger] triples@[k])@,
            ) by {
                if k >= pre.len() {
                    assert(triples@[k] == ann[k - pre.len()]);
                }
            }
        }
        if parser.is_end() {
            break;
        }
        if fuel == 0 {
            break;
        }
        fuel = fuel - 1;
    }
    triples
}

/// The pure part of one file's conversion: Turtle text in, triples and the
/// render-ready document model out.  The document's groups partition the
/// ingested triples by subject and are sorted by subject.
pub fn convert_turtle(input: &str) -> (r: (Vec<Triple>, Document))
    ensures
        forall|k: int| 0 <= k < r.0@.len() ==> triple_wf((#[trigger] r.0@[k])@),
        r.1.title@ == "Definitions"@,
        r.1.template@ == "page"@,
        document_wf(triple_views(r.0@), group_views(r.1.subject_groups@)),
{
    let triples = ingest_turtle(input);
    let doc = build_document(&triples);
    (triples, doc)
}

} // verus!
