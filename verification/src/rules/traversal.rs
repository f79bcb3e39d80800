//! Path traversal: parent-directory segments, decoded or encoded.

use super::{self as rules, compile_set, scan_fields, Hit, PatternError, Surface, SurfaceView};
use crate::request;
use regex::RegexSet;
use vstd::prelude::*;

verus! {

/// The patterns that the scan looks for.
pub open spec fn pattern_list() -> Seq<Seq<char>> {
    seq![
        r"(?i)\.\.[/\\]"@,
        r"(?i)[/\\]\.\.[/\\]"@,
        r"(?i)%2e%2e[%2f%5c/\\]"@,
        r"(?i)\.\.%(2f|5c)"@,
        r"(?i)\.\.%5c"@,
        r"(?i)%c0%2e%c0%2e"@,
    ]
}

/// Compiles the patterns that the scan looks for. A failure names the set.
pub fn pattern_set() -> (r: Result<RegexSet, PatternError>)
    ensures
        r matches Ok(set) ==> rules::set_patterns(set) == pattern_list(),
        r matches Err(e) ==> e.set@ == "traversal"@,
{
    let list = [
        r"(?i)\.\.[/\\]",
        r"(?i)[/\\]\.\.[/\\]",
        r"(?i)%2e%2e[%2f%5c/\\]",
        r"(?i)\.\.%(2f|5c)",
        r"(?i)\.\.%5c",
        r"(?i)%c0%2e%c0%2e",
    ];
    assert(crate::text::texts(list@) =~= pattern_list());
    compile_set("traversal", &list)
}

/// The texts that are scanned, in this order.
pub open spec fn scanned_fields(s: SurfaceView) -> Seq<request::Pair> {
    seq![
        ("path"@, s.path_decoded),
        ("query"@, s.query_decoded),
        ("uri-raw"@, s.uri),
        ("body"@, s.body_preview),
    ]
}

/// What the scan reports.
pub open spec fn scan_of(patterns: Seq<Seq<char>>, s: SurfaceView) -> Option<rules::HitView> {
    rules::scanned("TRAV-01"@, "traversal"@, patterns, scanned_fields(s))
}

pub fn scan(set: &RegexSet, s: &Surface) -> (r: Option<Hit>)
    ensures
        rules::hit_view(r) == scan_of(rules::set_patterns(*set), s@),
{
    let fields = [
        ("path", s.path_decoded.as_str()),
        ("query", s.query_decoded.as_str()),
        ("uri-raw", s.uri.as_str()),
        ("body", s.body_preview.as_str()),
    ];
    assert(rules::field_views(fields@) =~= scanned_fields(s@));
    scan_fields(set, "TRAV-01", "traversal", &fields)
}

// ---------------------------------------------------------------------------
// Laws
// ---------------------------------------------------------------------------

/// A request is reported for path traversal exactly when a pattern matches one of its parts: the decoded query,
/// the decoded path, the body or the raw address. The headers play no part.
pub proof fn lemma_every_part_counts(patterns: Seq<Seq<char>>, s: SurfaceView)
    ensures
        scan_of(patterns, s) is Some <==> {
            ||| rules::any_match(patterns, s.path_decoded)
            ||| rules::any_match(patterns, s.query_decoded)
            ||| rules::any_match(patterns, s.uri)
            ||| rules::any_match(patterns, s.body_preview)
        },
        rules::any_match(patterns, s.path_decoded) ==> scan_of(patterns, s) is Some,
        rules::any_match(patterns, s.query_decoded) ==> scan_of(patterns, s) is Some,
        rules::any_match(patterns, s.uri) ==> scan_of(patterns, s) is Some,
        rules::any_match(patterns, s.body_preview) ==> scan_of(patterns, s) is Some,
{
    lemma_first_part_reported(patterns, s);
}

/// The report names the rule, its class and the first part that a pattern matches, and shows the beginning of
/// that part.
pub proof fn lemma_first_part_reported(patterns: Seq<Seq<char>>, s: SurfaceView)
    ensures
        ({
            let path = rules::any_match(patterns, s.path_decoded);
            let query = rules::any_match(patterns, s.query_decoded);
            let uri = rules::any_match(patterns, s.uri);
            let body = rules::any_match(patterns, s.body_preview);
            let r = scan_of(patterns, s);
            &&& r matches Some(h) ==> h.rule_id == "TRAV-01"@ && h.category == "traversal"@
            &&& path ==> (r matches Some(h) && h.matched_field == "path"@
                && h.matched_excerpt == rules::excerpt_of(s.path_decoded))
            &&& !path && query ==> (r matches Some(h) && h.matched_field == "query"@
                && h.matched_excerpt == rules::excerpt_of(s.query_decoded))
            &&& !path && !query && uri ==> (r matches Some(h) && h.matched_field == "uri-raw"@
                && h.matched_excerpt == rules::excerpt_of(s.uri))
            &&& !path && !query && !uri && body ==> (r matches Some(h) && h.matched_field == "body"@
                && h.matched_excerpt == rules::excerpt_of(s.body_preview))
            &&& !path && !query && !uri && !body ==> r is None
        }),
{
    let f = scanned_fields(s);
    assert(f[0].1 == s.path_decoded);
    assert(f[1].1 == s.query_decoded);
    assert(f[2].1 == s.uri);
    assert(f[3].1 == s.body_preview);
    if rules::any_match(patterns, s.path_decoded) {
        rules::lemma_first_matching(patterns, f, 0);
    } else if rules::any_match(patterns, s.query_decoded) {
        rules::lemma_first_matching(patterns, f, 1);
    } else if rules::any_match(patterns, s.uri) {
        rules::lemma_first_matching(patterns, f, 2);
    } else if rules::any_match(patterns, s.body_preview) {
        rules::lemma_first_matching(patterns, f, 3);
    } else {
        rules::lemma_first_matching(patterns, f, 4);
    }
}

/// What the headers hold makes no difference to the scan for path traversal.
pub proof fn lemma_headers_ignored(patterns: Seq<Seq<char>>, s: SurfaceView, t: SurfaceView)
    requires
        s.query_decoded == t.query_decoded,
        s.path_decoded == t.path_decoded,
        s.body_preview == t.body_preview,
        s.uri == t.uri,
    ensures
        scan_of(patterns, s) == scan_of(patterns, t),
{
}

/// Each of these expressions is looked for, and no other.
pub proof fn lemma_looked_for()
    ensures
        pattern_list().len() == 6,
        pattern_list().contains(r"(?i)\.\.[/\\]"@),
        pattern_list().contains(r"(?i)[/\\]\.\.[/\\]"@),
        pattern_list().contains(r"(?i)%2e%2e[%2f%5c/\\]"@),
        pattern_list().contains(r"(?i)\.\.%(2f|5c)"@),
        pattern_list().contains(r"(?i)\.\.%5c"@),
        pattern_list().contains(r"(?i)%c0%2e%c0%2e"@),
{
    let l = pattern_list();
    assert(l[0] == r"(?i)\.\.[/\\]"@);
    assert(l[1] == r"(?i)[/\\]\.\.[/\\]"@);
    assert(l[2] == r"(?i)%2e%2e[%2f%5c/\\]"@);
    assert(l[3] == r"(?i)\.\.%(2f|5c)"@);
    assert(l[4] == r"(?i)\.\.%5c"@);
    assert(l[5] == r"(?i)%c0%2e%c0%2e"@);
}

} // verus!
