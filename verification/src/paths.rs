//! Output path mapping: an input file's path relative to the input root is
//! joined onto the output root and its Turtle extension is replaced by an
//! HTML extension.  The mapping is reversible up to the extension change.

use vstd::prelude::*;

use crate::model::opt_str_view;
use crate::order::{str_skip_chars, str_starts_with};

verus! {

/// The Turtle file extension, as characters.
pub open spec fn ttl_ext() -> Seq<char> {
    seq!['.', 't', 't', 'l']
}

/// The HTML file extension, as characters.
pub open spec fn html_ext() -> Seq<char> {
    seq!['.', 'h', 't', 'm', 'l']
}

/// Whether a path ends in the Turtle extension.
pub open spec fn has_ttl_ext(path: Seq<char>) -> bool {
    path.len() >= 4 && path.skip(path.len() - 4) == ttl_ext()
}

/// Whether a path ends in the HTML extension.
pub open spec fn has_html_ext(path: Seq<char>) -> bool {
    path.len() >= 5 && path.skip(path.len() - 5) == html_ext()
}

/// The output name of a converted file: the Turtle extension replaced by
/// the HTML extension; a name without a Turtle extension gets the HTML
/// extension appended.
pub open spec fn spec_html_name(path: Seq<char>) -> Seq<char> {
    if has_ttl_ext(path) {
        path.take(path.len() - 4) + html_ext()
    } else {
        path + html_ext()
    }
}

/// The inverse direction: the HTML extension replaced back by the Turtle
/// extension.
pub open spec fn spec_ttl_name(path: Seq<char>) -> Seq<char> {
    if has_html_ext(path) {
        path.take(path.len() - 5) + ttl_ext()
    } else {
        path + ttl_ext()
    }
}

/// A path relative to a root directory: defined when the path is the root
/// followed by a separator and a non-trivial remainder.
pub open spec fn spec_strip_prefix_dir(path: Seq<char>, root: Seq<char>) -> Option<Seq<char>> {
    if path.len() > root.len() && path.take(root.len() as int) == root && path[root.len() as int]
        == '/' {
        Option::Some(path.skip(root.len() as int + 1))
    } else {
        Option::None
    }
}

/// A root directory joined with a relative path.
pub open spec fn spec_join(root: Seq<char>, rel: Seq<char>) -> Seq<char> {
    root + seq!['/'] + rel
}

/// Whether the path ends in `.ttl`.
pub fn has_ttl_extension(path: &str) -> (r: bool)
    ensures
        r == has_ttl_ext(path@),
{
    let n: usize = path.unicode_len();
    if n < 4 {
        return false;
    }
    let r = path.get_char(n - 4) == '.' && path.get_char(n - 3) == 't' && path.get_char(n - 2)
        == 't' && path.get_char(n - 1) == 'l';
    proof {
        if r {
            assert(path@.skip(n - 4) =~= ttl_ext());
        } else {
            if path@.skip(n - 4) == ttl_ext() {
                assert(path@[n - 4] == ttl_ext()[0]);
                assert(path@[n - 3] == ttl_ext()[1]);
                assert(path@[n - 2] == ttl_ext()[2]);
                assert(path@[n - 1] == ttl_ext()[3]);
            }
        }
    }
    r
}

/// Replaces a `.ttl` extension by `.html`, appending `.html` when the name
/// has no `.ttl` extension.
pub fn with_html_extension(path: &str) -> (r: String)
    ensures
        r@ == spec_html_name(path@),
{
    let n: usize = path.unicode_len();
    proof {
        reveal_strlit(".html");
        assert(".html"@ =~= html_ext());
    }
    if has_ttl_extension(path) {
        let stem: &str = path.substring_char(0, n - 4);
        let mut s = String::from_str(stem);
        s.append(".html");
        proof {
            assert(path@.subrange(0, n - 4) =~= path@.take(n - 4));
        }
        s
    } else {
        let mut s = String::from_str(path);
        s.append(".html");
        s
    }
}

/// The path relative to a root directory, when the path lies under it.
pub fn strip_path_prefix(path: &str, root: &str) -> (r: Option<String>)
    ensures
        opt_str_view(r) == spec_strip_prefix_dir(path@, root@),
{
    let n: usize = path.unicode_len();
    let rn: usize = root.unicode_len();
    if rn < n && str_starts_with(path, root) && path.get_char(rn) == '/' {
        proof {
            assert(path@.take(rn as int) =~= path@.subrange(0, rn as int));
        }
        Some(str_skip_chars(path, rn + 1))
    } else {
        proof {
            if rn < n && root@.is_prefix_of(path@) {
                assert(path@.take(rn as int) =~= path@.subrange(0, rn as int));
            }
        }
        None
    }
}

/// Joins a root directory and a relative path with a separator.
pub fn join_path(root: &str, rel: &str) -> (r: String)
    ensures
        r@ == spec_join(root@, rel@),
{
    let mut s = String::from_str(root);
    s.append("/");
    s.append(rel);
    proof {
        reveal_strlit("/");
        assert("/"@ =~= seq!['/']);
    }
    s
}

/// Maps one input file's path to its two output paths: the full path of the
/// generated HTML file under the output root, and the output-relative path
/// used on the index page.  Returns `None` exactly when the input path does
/// not lie under the input root.
pub fn map_output_path(input_path: &str, input_root: &str, output_root: &str) -> (r: Option<
    (String, String),
>)
    ensures
        match r {
            Option::Some(pair) => spec_strip_prefix_dir(input_path@, input_root@) matches
                Option::Some(rel) && pair.1@ == spec_html_name(rel) && pair.0@ == spec_join(
                output_root@,
                spec_html_name(rel),
            ),
            Option::None => spec_strip_prefix_dir(input_path@, input_root@) is None,
        },
{
    match strip_path_prefix(input_path, input_root) {
        Some(rel) => {
            let rel_html = with_html_extension(rel.as_str());
            let full = join_path(output_root, rel_html.as_str());
            Some((full, rel_html))
        },
        None => None,
    }
}

/// Stripping a root from the path formed by joining it recovers the
/// relative path.
pub proof fn lemma_join_strip(root: Seq<char>, rel: Seq<char>)
    ensures
        spec_strip_prefix_dir(spec_join(root, rel), root) == Option::Some(rel),
{
    let j = spec_join(root, rel);
    assert(j.take(root.len() as int) =~= root);
    assert(j[root.len() as int] == '/');
    assert(j.skip(root.len() as int + 1) =~= rel);
}

/// Round-trip path mapping: for an input path `root/rel` with `rel` ending
/// in the Turtle extension, the produced output path under the output root
/// strips back to the produced relative name, and swapping the extension
/// back recovers `rel`.
pub proof fn lemma_path_round_trip(rel: Seq<char>, out_root: Seq<char>)
    requires
        has_ttl_ext(rel),
    ensures
        spec_strip_prefix_dir(spec_join(out_root, spec_html_name(rel)), out_root)
            == Option::Some(spec_html_name(rel)),
        spec_ttl_name(spec_html_name(rel)) == rel,
{
    let h = spec_html_name(rel);
    lemma_join_strip(out_root, h);
    assert(h.skip(h.len() - 5) =~= html_ext());
    assert(h.take(h.len() - 5) =~= rel.take(rel.len() - 4));
    assert(spec_ttl_name(h) =~= rel);
}

} // verus!
