//! Command injection: shell operators together with command names.

use super::{self as rules, compile_set, scan_fields, Hit, PatternError, Surface, SurfaceView};
use crate::request;
use regex::RegexSet;
use vstd::prelude::*;

verus! {

/// The patterns that the scan looks for.
pub open spec fn pattern_list() -> Seq<Seq<char>> {
    seq![
        r"(?i)[;&|`]\s*(cat|wget|curl|nc|ncat|bash|sh|zsh|powershell|whoami|id|uname|ifconfig|ipconfig|nslookup|dig)\b"@,
        r"(?i)\$\((?:cat|wget|curl|nc|ncat|bash|sh|whoami|id|uname)\b"@,
        r"(?i)`\s*(?:cat|wget|curl|nc|ncat|bash|sh|whoami|id|uname)\b"@,
        r"(?i)bash\s+-i\s*>&?\s*/dev/tcp/\d"@,
        r"(?i)/bin/(?:bash|sh)\s+-c\s+"@,
        r"(?i)powershell(?:\.exe)?\s+-(?:enc(?:odedcommand)?|e)\b"@,
        r"(?i)\bcertutil(?:\.exe)?\s+-urlcache\b"@,
    ]
}

/// Compiles the patterns that the scan looks for. A failure names the set.
pub fn pattern_set() -> (r: Result<RegexSet, PatternError>)
    ensures
        r matches Ok(set) ==> rules::set_patterns(set) == pattern_list(),
        r matches Err(e) ==> e.set@ == "cmdi"@,
{
    let list = [
        r"(?i)[;&|`]\s*(cat|wget|curl|nc|ncat|bash|sh|zsh|powershell|whoami|id|uname|ifconfig|ipconfig|nslookup|dig)\b",
        r"(?i)\$\((?:cat|wget|curl|nc|ncat|bash|sh|whoami|id|uname)\b",
        r"(?i)`\s*(?:cat|wget|curl|nc|ncat|bash|sh|whoami|id|uname)\b",
        r"(?i)bash\s+-i\s*>&?\s*/dev/tcp/\d",
        r"(?i)/bin/(?:bash|sh)\s+-c\s+",
        r"(?i)powershell(?:\.exe)?\s+-(?:enc(?:odedcommand)?|e)\b",
        r"(?i)\bcertutil(?:\.exe)?\s+-urlcache\b",
    ];
    assert(crate::text::texts(list@) =~= pattern_list());
    compile_set("cmdi", &list)
}

/// The texts that are scanned, in this order.
pub open spec fn scanned_fields(s: SurfaceView) -> Seq<request::Pair> {
    seq![
        ("query"@, s.query_decoded),
        ("path"@, s.path_decoded),
        ("body"@, s.body_preview),
        ("headers"@, s.headers_concat),
        ("uri-raw"@, s.uri),
    ]
}

/// What the scan reports.
pub open spec fn scan_of(patterns: Seq<Seq<char>>, s: SurfaceView) -> Option<rules::HitView> {
    rules::scanned("CMDI-01"@, "cmdi"@, patterns, scanned_fields(s))
}

pub fn scan(set: &RegexSet, s: &Surface) -> (r: Option<Hit>)
    ensures
        rules::hit_view(r) == scan_of(rules::set_patterns(*set), s@),
{
    let fields = [
        ("query", s.query_decoded.as_str()),
        ("path", s.path_decoded.as_str()),
        ("body", s.body_preview.as_str()),
        ("headers", s.headers_concat.as_str()),
        ("uri-raw", s.uri.as_str()),
    ];
    assert(rules::field_views(fields@) =~= scanned_fields(s@));
    scan_fields(set, "CMDI-01", "cmdi", &fields)
}

// ---------------------------------------------------------------------------
// Laws
// ---------------------------------------------------------------------------

/// A request is reported for command injection exactly when a pattern matches one of its parts: the decoded query,
/// the decoded path, the body, the headers or the raw address.
pub proof fn lemma_every_part_counts(patterns: Seq<Seq<char>>, s: SurfaceView)
    ensures
        scan_of(patterns, s) is Some <==> {
            ||| rules::any_match(patterns, s.query_decoded)
            ||| rules::any_match(patterns, s.path_decoded)
            ||| rules::any_match(patterns, s.body_preview)
            ||| rules::any_match(patterns, s.headers_concat)
            ||| rules::any_match(patterns, s.uri)
        },
        rules::any_match(patterns, s.query_decoded) ==> scan_of(patterns, s) is Some,
        rules::any_match(patterns, s.path_decoded) ==> scan_of(patterns, s) is Some,
        rules::any_match(patterns, s.body_preview) ==> scan_of(patterns, s) is Some,
        rules::any_match(patterns, s.headers_concat) ==> scan_of(patterns, s) is Some,
        rules::any_match(patterns, s.uri) ==> scan_of(patterns, s) is Some,
{
    lemma_first_part_reported(patterns, s);
}

/// The report names the rule, its class and the first part that a pattern matches, and shows the beginning of
/// that part.
pub proof fn lemma_first_part_reported(patterns: Seq<Seq<char>>, s: SurfaceView)
    ensures
        ({
            let query = rules::any_match(patterns, s.query_decoded);
            let path = rules::any_match(patterns, s.path_decoded);
            let body = rules::any_match(patterns, s.body_preview);
            let headers = rules::any_match(patterns, s.headers_concat);
            let uri = rules::any_match(patterns, s.uri);
            let r = scan_of(patterns, s);
            &&& r matches Some(h) ==> h.rule_id == "CMDI-01"@ && h.category == "cmdi"@
            &&& query ==> (r matches Some(h) && h.matched_field == "query"@
                && h.matched_excerpt == rules::excerpt_of(s.query_decoded))
            &&& !query && path ==> (r matches Some(h) && h.matched_field == "path"@
                && h.matched_excerpt == rules::excerpt_of(s.path_decoded))
            &&& !query && !path && body ==> (r matches Some(h) && h.matched_field == "body"@
                && h.matched_excerpt == rules::excerpt_of(s.body_preview))
            &&& !query && !path && !body && headers ==> (r matches Some(h) && h.matched_field == "headers"@
                && h.matched_excerpt == rules::excerpt_of(s.headers_concat))
            &&& !query && !path && !body && !headers && uri ==> (r matches Some(h) && h.matched_field == "uri-raw"@
                && h.matched_excerpt == rules::excerpt_of(s.uri))
            &&& !query && !path && !body && !headers && !uri ==> r is None
        }),
{
    let f = scanned_fields(s);
    assert(f[0].1 == s.query_decoded);
    assert(f[1].1 == s.path_decoded);
    assert(f[2].1 == s.body_preview);
    assert(f[3].1 == s.headers_concat);
    assert(f[4].1 == s.uri);
    if rules::any_match(patterns, s.query_decoded) {
        rules::lemma_first_matching(patterns, f, 0);
    } else if rules::any_match(patterns, s.path_decoded) {
        rules::lemma_first_matching(patterns, f, 1);
    } else if rules::any_match(patterns, s.body_preview) {
        rules::lemma_first_matching(patterns, f, 2);
    } else if rules::any_match(patterns, s.headers_concat) {
        rules::lemma_first_matching(patterns, f, 3);
    } else if rules::any_match(patterns, s.uri) {
        rules::lemma_first_matching(patterns, f, 4);
    } else {
        rules::lemma_first_matching(patterns, f, 5);
    }
}

/// Each of these expressions is looked for, and no other.
pub proof fn lemma_looked_for()
    ensures
        pattern_list().len() == 7,
        pattern_list().contains(r"(?i)[;&|`]\s*(cat|wget|curl|nc|ncat|bash|sh|zsh|powershell|whoami|id|uname|ifconfig|ipconfig|nslookup|dig)\b"@),
        pattern_list().contains(r"(?i)\$\((?:cat|wget|curl|nc|ncat|bash|sh|whoami|id|uname)\b"@),
        pattern_list().contains(r"(?i)`\s*(?:cat|wget|curl|nc|ncat|bash|sh|whoami|id|uname)\b"@),
        pattern_list().contains(r"(?i)bash\s+-i\s*>&?\s*/dev/tcp/\d"@),
        pattern_list().contains(r"(?i)/bin/(?:bash|sh)\s+-c\s+"@),
        pattern_list().contains(r"(?i)powershell(?:\.exe)?\s+-(?:enc(?:odedcommand)?|e)\b"@),
        pattern_list().contains(r"(?i)\bcertutil(?:\.exe)?\s+-urlcache\b"@),
{
    let l = pattern_list();
    assert(l[0] == r"(?i)[;&|`]\s*(cat|wget|curl|nc|ncat|bash|sh|zsh|powershell|whoami|id|uname|ifconfig|ipconfig|nslookup|dig)\b"@);
    assert(l[1] == r"(?i)\$\((?:cat|wget|curl|nc|ncat|bash|sh|whoami|id|uname)\b"@);
    assert(l[2] == r"(?i)`\s*(?:cat|wget|curl|nc|ncat|bash|sh|whoami|id|uname)\b"@);
    assert(l[3] == r"(?i)bash\s+-i\s*>&?\s*/dev/tcp/\d"@);
    assert(l[4] == r"(?i)/bin/(?:bash|sh)\s+-c\s+"@);
    assert(l[5] == r"(?i)powershell(?:\.exe)?\s+-(?:enc(?:odedcommand)?|e)\b"@);
    assert(l[6] == r"(?i)\bcertutil(?:\.exe)?\s+-urlcache\b"@);
}

} // verus!
