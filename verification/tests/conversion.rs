use rdf_to_html::document::{build_document, build_index_document, group_triples};
use rdf_to_html::links::update_triple_with_links;
use rdf_to_html::model::{IndexEntry, Triple};
use rdf_to_html::order::{sort_strings, str_lt};
use rdf_to_html::paths::{map_output_path, strip_path_prefix, with_html_extension};
use rdf_to_html::turtle::convert_turtle;

fn plain_triple(subject: &str, predicate: &str, object: &str) -> Triple {
    Triple {
        subject: subject.to_string(),
        predicate: predicate.to_string(),
        object: object.to_string(),
        subject_link: None,
        subject_label: subject.to_string(),
        predicate_link: None,
        object_link: None,
    }
}

#[test]
fn default_triple_is_empty() {
    let t = Triple::default();
    assert_eq!(t.subject, "");
    assert_eq!(t.predicate, "");
    assert_eq!(t.object, "");
    assert_eq!(t.subject_label, "");
    assert!(t.subject_link.is_none());
    assert!(t.predicate_link.is_none());
    assert!(t.object_link.is_none());
}

#[test]
fn index_entry_new_keeps_fields() {
    let e = IndexEntry::new("b.ttl".to_string(), "a/b.html".to_string());
    assert_eq!(e.name, "b.ttl");
    assert_eq!(e.path, "a/b.html");
}

#[test]
fn resolve_links_known_prefix() {
    let mut t = plain_triple("http://ex.org/Alice", "http://ex.org/name", "\"Alice\"");
    let prefixes = vec!["http://ex.org/".to_string()];
    update_triple_with_links(&mut t, &prefixes);
    assert_eq!(t.subject, "http://ex.org/Alice");
    assert_eq!(t.subject_label, "Alice");
    assert_eq!(t.subject_link, Some("http://ex.org/Alice".to_string()));
    assert_eq!(t.predicate, "name");
    assert_eq!(t.predicate_link, Some("http://ex.org/name".to_string()));
    assert_eq!(t.object, "\"Alice\"");
    assert!(t.object_link.is_none());
}

#[test]
fn resolve_links_no_matching_prefix() {
    let mut t = plain_triple("http://other.org/x", "http://other.org/y", "\"z\"");
    let prefixes = vec!["http://ex.org/".to_string()];
    update_triple_with_links(&mut t, &prefixes);
    assert_eq!(t.subject, "http://other.org/x");
    assert_eq!(t.subject_label, "http://other.org/x");
    assert!(t.subject_link.is_none());
    assert_eq!(t.predicate, "http://other.org/y");
    assert!(t.predicate_link.is_none());
    assert_eq!(t.object, "\"z\"");
    assert!(t.object_link.is_none());
}

#[test]
fn resolve_links_strips_leading_occurrence_only() {
    // The prefix string occurs twice in the value; only the leading
    // occurrence is removed.
    let mut t = plain_triple(
        "http://a.org/x",
        "http://a.org/http://a.org/x",
        "\"v\"",
    );
    let prefixes = vec!["http://a.org/".to_string()];
    update_triple_with_links(&mut t, &prefixes);
    assert_eq!(t.predicate, "http://a.org/x");
    assert_eq!(
        t.predicate_link,
        Some("http://a.org/http://a.org/x".to_string())
    );
}

#[test]
fn resolve_links_overlapping_prefixes_first_in_order_wins() {
    let mut t = plain_triple("http://ex.org/a/b", "http://ex.org/a/p", "\"v\"");
    // The shorter prefix sorts first lexicographically, so after sorting it
    // is the one that wins for both fields.
    let prefixes = sort_strings(&vec![
        "http://ex.org/a/".to_string(),
        "http://ex.org/".to_string(),
    ]);
    assert_eq!(prefixes[0], "http://ex.org/");
    update_triple_with_links(&mut t, &prefixes);
    assert_eq!(t.subject_label, "a/b");
    assert_eq!(t.predicate, "a/p");
}

#[test]
fn grouping_groups_and_sorts() {
    let bob = plain_triple("http://ex.org/Bob", "http://ex.org/name", "\"Bob\"");
    let alice1 = plain_triple("http://ex.org/Alice", "http://ex.org/name", "\"Alice\"");
    let alice2 = plain_triple("http://ex.org/Alice", "http://ex.org/age", "\"30\"");
    let triples = vec![bob, alice1, alice2];
    let groups = group_triples(&triples);
    assert_eq!(groups.len(), 2);
    assert_eq!(groups[0].subject, "http://ex.org/Alice");
    assert_eq!(groups[0].triples.len(), 2);
    assert_eq!(groups[0].triples[0].predicate, "http://ex.org/name");
    assert_eq!(groups[0].triples[1].predicate, "http://ex.org/age");
    assert_eq!(groups[1].subject, "http://ex.org/Bob");
    assert_eq!(groups[1].triples.len(), 1);
    let total: usize = groups.iter().map(|g| g.triples.len()).sum();
    assert_eq!(total, triples.len());
}

#[test]
fn group_metadata_comes_from_first_triple() {
    let mut first = plain_triple("http://ex.org/Alice", "http://ex.org/name", "\"Alice\"");
    let prefixes = vec!["http://ex.org/".to_string()];
    update_triple_with_links(&mut first, &prefixes);
    let second = plain_triple("http://ex.org/Alice", "http://ex.org/age", "\"30\"");
    let groups = group_triples(&vec![first, second]);
    assert_eq!(groups.len(), 1);
    assert_eq!(groups[0].subject_label, "Alice");
    assert_eq!(
        groups[0].subject_link,
        Some("http://ex.org/Alice".to_string())
    );
}

#[test]
fn empty_input_zero_groups() {
    let (triples, doc) = convert_turtle("");
    assert!(triples.is_empty());
    assert_eq!(doc.subject_groups.len(), 0);
    assert_eq!(doc.title, "Definitions");
    assert_eq!(doc.template, "page");
}

#[test]
fn parse_and_annotate_turtle() {
    let input = "@prefix ex: <http://ex.org/> .\nex:Alice ex:name \"Alice\" .\n";
    let (triples, doc) = convert_turtle(input);
    assert_eq!(triples.len(), 1);
    let t = &triples[0];
    assert_eq!(t.subject, "http://ex.org/Alice");
    assert_eq!(t.subject_label, "Alice");
    assert_eq!(t.subject_link, Some("http://ex.org/Alice".to_string()));
    assert_eq!(t.predicate, "name");
    assert_eq!(t.predicate_link, Some("http://ex.org/name".to_string()));
    assert_eq!(t.object, "\"Alice\"");
    assert!(t.object_link.is_none());
    assert_eq!(doc.subject_groups.len(), 1);
    assert_eq!(doc.subject_groups[0].subject, "http://ex.org/Alice");
}

#[test]
fn parse_counts_all_triples() {
    let input = "@prefix ex: <http://ex.org/> .\n\
                 ex:Bob ex:name \"Bob\" .\n\
                 ex:Alice ex:name \"Alice\" .\n\
                 ex:Alice ex:knows ex:Bob .\n";
    let (triples, doc) = convert_turtle(input);
    assert_eq!(triples.len(), 3);
    let total: usize = doc.subject_groups.iter().map(|g| g.triples.len()).sum();
    assert_eq!(total, 3);
    assert_eq!(doc.subject_groups.len(), 2);
    assert_eq!(doc.subject_groups[0].subject, "http://ex.org/Alice");
    assert_eq!(doc.subject_groups[1].subject, "http://ex.org/Bob");
}

#[test]
fn prefix_declared_later_does_not_apply_to_earlier_triples() {
    let input = "<http://ex.org/a> <http://ex.org/p> <http://ex.org/b> .\n\
                 @prefix ex: <http://ex.org/> .\n\
                 ex:c ex:p ex:d .\n";
    let (triples, _) = convert_turtle(input);
    assert_eq!(triples.len(), 2);
    // The first triple was parsed before the prefix declaration.
    assert!(triples[0].subject_link.is_none());
    assert_eq!(triples[0].predicate, "http://ex.org/p");
    // The second triple sees the prefix.
    assert_eq!(triples[1].subject_label, "c");
    assert_eq!(triples[1].predicate, "p");
}

#[test]
fn blank_node_subject_is_not_linked() {
    let input = "@prefix ex: <http://ex.org/> .\n_:b1 ex:name \"N\" .\n";
    let (triples, _) = convert_turtle(input);
    assert_eq!(triples.len(), 1);
    assert!(triples[0].subject.starts_with("_:"));
    assert!(triples[0].subject_link.is_none());
    assert_eq!(triples[0].subject_label, triples[0].subject);
}

#[test]
fn sort_strings_sorts_lexicographically() {
    let v = vec![
        "http://z.org/".to_string(),
        "http://a.org/".to_string(),
        "http://a.org/sub/".to_string(),
    ];
    let sorted = sort_strings(&v);
    assert_eq!(
        sorted,
        vec![
            "http://a.org/".to_string(),
            "http://a.org/sub/".to_string(),
            "http://z.org/".to_string(),
        ]
    );
}

#[test]
fn str_lt_is_codepoint_lexicographic() {
    assert!(str_lt("abc", "abd"));
    assert!(str_lt("ab", "abc"));
    assert!(!str_lt("abc", "abc"));
    assert!(!str_lt("b", "abc"));
    assert!(str_lt("", "a"));
}

#[test]
fn map_output_path_round_trip_shape() {
    let mapped = map_output_path("root/a/b.ttl", "root", "out");
    let (full, rel) = mapped.expect("path should lie under the root");
    assert_eq!(full, "out/a/b.html");
    assert_eq!(rel, "a/b.html");
    // Stripping the output root recovers the relative path.
    assert_eq!(strip_path_prefix(&full, "out"), Some("a/b.html".to_string()));
}

#[test]
fn map_output_path_outside_root_is_none() {
    assert!(map_output_path("elsewhere/b.ttl", "root", "out").is_none());
    assert!(map_output_path("root", "root", "out").is_none());
}

#[test]
fn with_html_extension_handles_plain_names() {
    assert_eq!(with_html_extension("a/b.ttl"), "a/b.html");
    assert_eq!(with_html_extension("noext"), "noext.html");
}

#[test]
fn build_document_has_fixed_title_and_template() {
    let doc = build_document(&Vec::new());
    assert_eq!(doc.title, "Definitions");
    assert_eq!(doc.template, "page");
    assert!(doc.subject_groups.is_empty());
}

#[test]
fn index_document_has_fixed_title_and_template() {
    let entries = vec![
        IndexEntry::new("b.ttl".to_string(), "a/b.html".to_string()),
        IndexEntry::new("c.ttl".to_string(), "c.html".to_string()),
    ];
    let doc = build_index_document(entries);
    assert_eq!(doc.title, "Index of RDF Files");
    assert_eq!(doc.template, "index");
    assert_eq!(doc.entries.len(), 2);
    assert_eq!(doc.entries[0].name, "b.ttl");
    assert_eq!(doc.entries[1].path, "c.html");
}

#[test]
fn resolution_is_idempotent_on_ordinary_values() {
    let mut t = plain_triple("http://ex.org/Alice", "http://ex.org/name", "\"Alice\"");
    let prefixes = vec!["http://ex.org/".to_string()];
    update_triple_with_links(&mut t, &prefixes);
    let mut again = Triple {
        subject: t.subject.clone(),
        predicate: t.predicate.clone(),
        object: t.object.clone(),
        subject_link: t.subject_link.clone(),
        subject_label: t.subject_label.clone(),
        predicate_link: t.predicate_link.clone(),
        object_link: t.object_link.clone(),
    };
    update_triple_with_links(&mut again, &prefixes);
    assert_eq!(again.subject, t.subject);
    assert_eq!(again.subject_label, t.subject_label);
    assert_eq!(again.subject_link, t.subject_link);
    assert_eq!(again.predicate, t.predicate);
    assert_eq!(again.predicate_link, t.predicate_link);
    assert_eq!(again.object, t.object);
    assert_eq!(again.object_link, t.object_link);
}
