//! Script injection into pages.

use super::{self as rules, compile_set, scan_fields, Hit, PatternError, Surface, SurfaceView};
use crate::request;
use regex::RegexSet;
use vstd::prelude::*;

verus! {

/// The patterns that the scan looks for.
pub open spec fn pattern_list() -> Seq<Seq<char>> {
    seq![
        r"(?i)<script\b[^>]*>"@,
        r"(?i)</\s*script\s*>"@,
        r"(?i)\bjavascript\s*:"@,
        r"(?i)\bdata\s*:\s*text/html"@,
        r#"(?i)on(?:load|error|click|mouseover|focus|submit|toggle|animationstart)\s*=\s*["']?[^"'>]+"#@,
        r"(?i)<\s*(iframe|object|embed|svg|math|video|audio)\b"@,
        r"(?i)\bsrcdoc\s*="@,
        r"(?i)expression\s*\("@,
        r"(?i)<\s*img[^>]+\bonerror\s*="@,
        r"(?i)\beval\s*\(\s*atob\s*\("@,
        r"(?i)\bdocument\.cookie\b"@,
        r#"(?i)<\s*meta\s+http-equiv\s*=\s*["']?refresh"#@,
    ]
}

/// Compiles the patterns that the scan looks for. A failure names the set.
pub fn pattern_set() -> (r: Result<RegexSet, PatternError>)
    ensures
        r matches Ok(set) ==> rules::set_patterns(set) == pattern_list(),
        r matches Err(e) ==> e.set@ == "xss"@,
{
    let list = [
        r"(?i)<script\b[^>]*>",
        r"(?i)</\s*script\s*>",
        r"(?i)\bjavascript\s*:",
        r"(?i)\bdata\s*:\s*text/html",
        r#"(?i)on(?:load|error|click|mouseover|focus|submit|toggle|animationstart)\s*=\s*["']?[^"'>]+"#,
        r"(?i)<\s*(iframe|object|embed|svg|math|video|audio)\b",
        r"(?i)\bsrcdoc\s*=",
        r"(?i)expression\s*\(",
        r"(?i)<\s*img[^>]+\bonerror\s*=",
        r"(?i)\beval\s*\(\s*atob\s*\(",
        r"(?i)\bdocument\.cookie\b",
        r#"(?i)<\s*meta\s+http-equiv\s*=\s*["']?refresh"#,
    ];
    assert(crate::text::texts(list@) =~= pattern_list());
    compile_set("xss", &list)
}

/// The texts that are scanned, in this order.
pub open spec fn scanned_fields(s: SurfaceView) -> Seq<request::Pair> {
    seq![
        ("query"@, s.query_decoded),
        ("path"@, s.path_decoded),
        ("body"@, s.body_preview),
        ("headers"@, s.headers_concat),
        ("uri-raw"@, s.uri),
    ]
}

/// What the scan reports.
pub open spec fn scan_of(patterns: Seq<Seq<char>>, s: SurfaceView) -> Option<rules::HitView> {
    rules::scanned("XSS-01"@, "xss"@, patterns, scanned_fields(s))
}

pub fn scan(set: &RegexSet, s: &Surface) -> (r: Option<Hit>)
    ensures
        rules::hit_view(r) == scan_of(rules::set_patterns(*set), s@),
{
    let fields = [
        ("query", s.query_decoded.as_str()),
        ("path", s.path_decoded.as_str()),
        ("body", s.body_preview.as_str()),
        ("headers", s.headers_concat.as_str()),
        ("uri-raw", s.uri.as_str()),
    ];
    assert(rules::field_views(fields@) =~= scanned_fields(s@));
    scan_fields(set, "XSS-01", "xss", &fields)
}

// ---------------------------------------------------------------------------
// Laws
// ---------------------------------------------------------------------------

/// A request is reported for script injection exactly when a pattern matches one of its parts: the decoded query,
/// the decoded path, the body, the headers or the raw address.
pub proof fn lemma_every_part_counts(patterns: Seq<Seq<char>>, s: SurfaceView)
    ensures
        scan_of(patterns, s) is Some <==> {
            ||| rules::any_match(patterns, s.query_decoded)
            ||| rules::any_match(patterns, s.path_decoded)
            ||| rules::any_match(patterns, s.body_preview)
            ||| rules::any_match(patterns, s.headers_concat)
            ||| rules::any_match(patterns, s.uri)
        },
        rules::any_match(patterns, s.query_decoded) ==> scan_of(patterns, s) is Some,
        rules::any_match(patterns, s.path_decoded) ==> scan_of(patterns, s) is Some,
        rules::any_match(patterns, s.body_preview) ==> scan_of(patterns, s) is Some,
        rules::any_match(patterns, s.headers_concat) ==> scan_of(patterns, s) is Some,
        rules::any_match(patterns, s.uri) ==> scan_of(patterns, s) is Some,
{
    lemma_first_part_reported(patterns, s);
}

/// The report names the rule, its class and the first part that a pattern matches, and shows the beginning of
/// that part.
pub proof fn lemma_first_part_reported(patterns: Seq<Seq<char>>, s: SurfaceView)
    ensures
        ({
            let query = rules::any_match(patterns, s.query_decoded);
            let path = rules::any_match(patterns, s.path_decoded);
            let body = rules::any_match(patterns, s.body_preview);
            let headers = rules::any_match(patterns, s.headers_concat);
            let uri = rules::any_match(patterns, s.uri);
            let r = scan_of(patterns, s);
            &&& r matches Some(h) ==> h.rule_id == "XSS-01"@ && h.category == "xss"@
            &&& query ==> (r matches Some(h) && h.matched_field == "query"@
                && h.matched_excerpt == rules::excerpt_of(s.query_decoded))
            &&& !query && path ==> (r matches Some(h) && h.matched_field == "path"@
                && h.matched_excerpt == rules::excerpt_of(s.path_decoded))
            &&& !query && !path && body ==> (r matches Some(h) && h.matched_field == "body"@
                && h.matched_excerpt == rules::excerpt_of(s.body_preview))
            &&& !query && !path && !body && headers ==> (r matches Some(h) && h.matched_field == "headers"@
                && h.matched_excerpt == rules::excerpt_of(s.headers_concat))
            &&& !query && !path && !body && !headers && uri ==> (r matches Some(h) && h.matched_field == "uri-raw"@
                && h.matched_excerpt == rules::excerpt_of(s.uri))
            &&& !query && !path && !body && !headers && !uri ==> r is None
        }),
{
    let f = scanned_fields(s);
    assert(f[0].1 == s.query_decoded);
    assert(f[1].1 == s.path_decoded);
    assert(f[2].1 == s.body_preview);
    assert(f[3].1 == s.headers_concat);
    assert(f[4].1 == s.uri);
    if rules::any_match(patterns, s.query_decoded) {
        rules::lemma_first_matching(patterns, f, 0);
    } else if rules::any_match(patterns, s.path_decoded) {
        rules::lemma_first_matching(patterns, f, 1);
    } else if rules::any_match(patterns, s.body_preview) {
        rules::lemma_first_matching(patterns, f, 2);
    } else if rules::any_match(patterns, s.headers_concat) {
        rules::lemma_first_matching(patterns, f, 3);
    } else if rules::any_match(patterns, s.uri) {
        rules::lemma_first_matching(patterns, f, 4);
    } else {
        rules::lemma_first_matching(patterns, f, 5);
    }
}

/// Each of these expressions is looked for, and no other.
pub proof fn lemma_looked_for()
    ensures
        pattern_list().len() == 12,
        pattern_list().contains(r"(?i)<script\b[^>]*>"@),
        pattern_list().contains(r"(?i)</\s*script\s*>"@),
        pattern_list().contains(r"(?i)\bjavascript\s*:"@),
        pattern_list().contains(r"(?i)\bdata\s*:\s*text/html"@),
        pattern_list().contains(r#"(?i)on(?:load|error|click|mouseover|focus|submit|toggle|animationstart)\s*=\s*["']?[^"'>]+"#@),
        pattern_list().contains(r"(?i)<\s*(iframe|object|embed|svg|math|video|audio)\b"@),
        pattern_list().contains(r"(?i)\bsrcdoc\s*="@),
        pattern_list().contains(r"(?i)expression\s*\("@),
        pattern_list().contains(r"(?i)<\s*img[^>]+\bonerror\s*="@),
        pattern_list().contains(r"(?i)\beval\s*\(\s*atob\s*\("@),
        pattern_list().contains(r"(?i)\bdocument\.cookie\b"@),
        pattern_list().contains(r#"(?i)<\s*meta\s+http-equiv\s*=\s*["']?refresh"#@),
{
    let l = pattern_list();
    assert(l[0] == r"(?i)<script\b[^>]*>"@);
    assert(l[1] == r"(?i)</\s*script\s*>"@);
    assert(l[2] == r"(?i)\bjavascript\s*:"@);
    assert(l[3] == r"(?i)\bdata\s*:\s*text/html"@);
    assert(l[4] == r#"(?i)on(?:load|error|click|mouseover|focus|submit|toggle|animationstart)\s*=\s*["']?[^"'>]+"#@);
    assert(l[5] == r"(?i)<\s*(iframe|object|embed|svg|math|video|audio)\b"@);
    assert(l[6] == r"(?i)\bsrcdoc\s*="@);
    assert(l[7] == r"(?i)expression\s*\("@);
    assert(l[8] == r"(?i)<\s*img[^>]+\bonerror\s*="@);
    assert(l[9] == r"(?i)\beval\s*\(\s*atob\s*\("@);
    assert(l[10] == r"(?i)\bdocument\.cookie\b"@);
    assert(l[11] == r#"(?i)<\s*meta\s+http-equiv\s*=\s*["']?refresh"#@);
}

} // verus!
