//! Inclusion of local and remote files.

use super::{self as rules, compile_set, scan_fields, Hit, PatternError, Surface, SurfaceView};
use crate::request;
use regex::RegexSet;
use vstd::prelude::*;

verus! {

/// The patterns that the scan looks for.
pub open spec fn pattern_list() -> Seq<Seq<char>> {
    seq![
        r"(?i)(?:^|[=/])/etc/(?:passwd|shadow|hosts|hostname|self/environ|crontab)\b"@,
        r"(?i)/proc/self/(?:environ|cmdline|maps|stat)\b"@,
        r"(?i)(?:^|[=/\\])(?:c:[\\/])?windows[\\/]system32[\\/]drivers[\\/]etc[\\/]hosts\b"@,
        r"(?i)(?:^|[=/])(?:boot\.ini|win\.ini)\b"@,
        r"(?i)\bphp://(?:filter|input|expect|stdin)\b"@,
        r"(?i)\bzip://|phar://"@,
        r"(?i)\b(?:include|require|page|file|template)\s*=\s*https?://"@,
    ]
}

/// Compiles the patterns that the scan looks for. A failure names the set.
pub fn pattern_set() -> (r: Result<RegexSet, PatternError>)
    ensures
        r matches Ok(set) ==> rules::set_patterns(set) == pattern_list(),
        r matches Err(e) ==> e.set@ == "lfi"@,
{
    let list = [
        r"(?i)(?:^|[=/])/etc/(?:passwd|shadow|hosts|hostname|self/environ|crontab)\b",
        r"(?i)/proc/self/(?:environ|cmdline|maps|stat)\b",
        r"(?i)(?:^|[=/\\])(?:c:[\\/])?windows[\\/]system32[\\/]drivers[\\/]etc[\\/]hosts\b",
        r"(?i)(?:^|[=/])(?:boot\.ini|win\.ini)\b",
        r"(?i)\bphp://(?:filter|input|expect|stdin)\b",
        r"(?i)\bzip://|phar://",
        r"(?i)\b(?:include|require|page|file|template)\s*=\s*https?://",
    ];
    assert(crate::text::texts(list@) =~= pattern_list());
    compile_set("lfi", &list)
}

/// The texts that are scanned, in this order.
pub open spec fn scanned_fields(s: SurfaceView) -> Seq<request::Pair> {
    seq![
        ("query"@, s.query_decoded),
        ("path"@, s.path_decoded),
        ("body"@, s.body_preview),
        ("uri-raw"@, s.uri),
    ]
}

/// What the scan reports.
pub open spec fn scan_of(patterns: Seq<Seq<char>>, s: SurfaceView) -> Option<rules::HitView> {
    rules::scanned("LFI-01"@, "lfi"@, patterns, scanned_fields(s))
}

pub fn scan(set: &RegexSet, s: &Surface) -> (r: Option<Hit>)
    ensures
        rules::hit_view(r) == scan_of(rules::set_patterns(*set), s@),
{
    let fields = [
        ("query", s.query_decoded.as_str()),
        ("path", s.path_decoded.as_str()),
        ("body", s.body_preview.as_str()),
        ("uri-raw", s.uri.as_str()),
    ];
    assert(rules::field_views(fields@) =~= scanned_fields(s@));
    scan_fields(set, "LFI-01", "lfi", &fields)
}

// ---------------------------------------------------------------------------
// Laws
// ---------------------------------------------------------------------------

/// A request is reported for file inclusion exactly when a pattern matches one of its parts: the decoded query,
/// the decoded path, the body or the raw address. The headers play no part.
pub proof fn lemma_every_part_counts(patterns: Seq<Seq<char>>, s: SurfaceView)
    ensures
        scan_of(patterns, s) is Some <==> {
            ||| rules::any_match(patterns, s.query_decoded)
            ||| rules::any_match(patterns, s.path_decoded)
            ||| rules::any_match(patterns, s.body_preview)
            ||| rules::any_match(patterns, s.uri)
        },
        rules::any_match(patterns, s.query_decoded) ==> scan_of(patterns, s) is Some,
        rules::any_match(patterns, s.path_decoded) ==> scan_of(patterns, s) is Some,
        rules::any_match(patterns, s.body_preview) ==> scan_of(patterns, s) is Some,
        rules::any_match(patterns, s.uri) ==> scan_of(patterns, s) is Some,
{
    lemma_first_part_reported(patterns, s);
}

/// The report names the rule, its class and the first part that a pattern matches, and shows the beginning of
/// that part.
pub proof fn lemma_first_part_reported(patterns: Seq<Seq<char>>, s: SurfaceView)
    ensures
        ({
            let query = rules::any_match(patterns, s.query_decoded);
            let path = rules::any_match(patterns, s.path_decoded);
            let body = rules::any_match(patterns, s.body_preview);
            let uri = rules::any_match(patterns, s.uri);
            let r = scan_of(patterns, s);
            &&& r matches Some(h) ==> h.rule_id == "LFI-01"@ && h.category == "lfi"@
            &&& query ==> (r matches Some(h) && h.matched_field == "query"@
                && h.matched_excerpt == rules::excerpt_of(s.query_decoded))
            &&& !query && path ==> (r matches Some(h) && h.matched_field == "path"@
                && h.matched_excerpt == rules::excerpt_of(s.path_decoded))
            &&& !query && !path && body ==> (r matches Some(h) && h.matched_field == "body"@
                && h.matched_excerpt == rules::excerpt_of(s.body_preview))
            &&& !query && !path && !body && uri ==> (r matches Some(h) && h.matched_field == "uri-raw"@
                && h.matched_excerpt == rules::excerpt_of(s.uri))
            &&& !query && !path && !body && !uri ==> r is None
        }),
{
    let f = scanned_fields(s);
    assert(f[0].1 == s.query_decoded);
    assert(f[1].1 == s.path_decoded);
    assert(f[2].1 == s.body_preview);
    assert(f[3].1 == s.uri);
    if rules::any_match(patterns, s.query_decoded) {
        rules::lemma_first_matching(patterns, f, 0);
    } else if rules::any_match(patterns, s.path_decoded) {
        rules::lemma_first_matching(patterns, f, 1);
    } else if rules::any_match(patterns, s.body_preview) {
        rules::lemma_first_matching(patterns, f, 2);
    } else if rules::any_match(patterns, s.uri) {
        rules::lemma_first_matching(patterns, f, 3);
    } else {
        rules::lemma_first_matching(patterns, f, 4);
    }
}

/// What the headers hold makes no difference to the scan for file inclusion.
pub proof fn lemma_headers_ignored(patterns: Seq<Seq<char>>, s: SurfaceView, t: SurfaceView)
    requires
        s.query_decoded == t.query_decoded,
        s.path_decoded == t.path_decoded,
        s.body_preview == t.body_preview,
        s.uri == t.uri,
    ensures
        scan_of(patterns, s) == scan_of(patterns, t),
{
}

/// Each of these expressions is looked for, and no other.
pub proof fn lemma_looked_for()
    ensures
        pattern_list().len() == 7,
        pattern_list().contains(r"(?i)(?:^|[=/])/etc/(?:passwd|shadow|hosts|hostname|self/environ|crontab)\b"@),
        pattern_list().contains(r"(?i)/proc/self/(?:environ|cmdline|maps|stat)\b"@),
        pattern_list().contains(r"(?i)(?:^|[=/\\])(?:c:[\\/])?windows[\\/]system32[\\/]drivers[\\/]etc[\\/]hosts\b"@),
        pattern_list().contains(r"(?i)(?:^|[=/])(?:boot\.ini|win\.ini)\b"@),
        pattern_list().contains(r"(?i)\bphp://(?:filter|input|expect|stdin)\b"@),
        pattern_list().contains(r"(?i)\bzip://|phar://"@),
        pattern_list().contains(r"(?i)\b(?:include|require|page|file|template)\s*=\s*https?://"@),
{
    let l = pattern_list();
    assert(l[0] == r"(?i)(?:^|[=/])/etc/(?:passwd|shadow|hosts|hostname|self/environ|crontab)\b"@);
    assert(l[1] == r"(?i)/proc/self/(?:environ|cmdline|maps|stat)\b"@);
    assert(l[2] == r"(?i)(?:^|[=/\\])(?:c:[\\/])?windows[\\/]system32[\\/]drivers[\\/]etc[\\/]hosts\b"@);
    assert(l[3] == r"(?i)(?:^|[=/])(?:boot\.ini|win\.ini)\b"@);
    assert(l[4] == r"(?i)\bphp://(?:filter|input|expect|stdin)\b"@);
    assert(l[5] == r"(?i)\bzip://|phar://"@);
    assert(l[6] == r"(?i)\b(?:include|require|page|file|template)\s*=\s*https?://"@);
}

} // verus!
