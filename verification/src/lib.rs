//! Converts RDF Turtle documents into a render-ready document model: triples
//! are extracted from the Turtle text, annotated with links for values that
//! match a declared namespace prefix, grouped by subject, and the groups are
//! sorted lexicographically.  The model is handed to an external template
//! engine for rendering; reading files and writing HTML stay outside this
//! library.

pub mod document;
pub mod links;
pub mod model;
pub mod order;
pub mod paths;
pub mod turtle;
