//! Detection rules. Each module scans a request for one class of attack; a scan reports the
//! first part of the request that matches one of its patterns.

pub mod cmdi;
pub mod lfi;
pub mod sqli;
pub mod traversal;
pub mod ua;
pub mod xss;

use crate::decode::{self, decode, lossy};
use crate::request::{self, RequestCtx, TextMap};
use crate::text::{self, cat3, first_chars, is_one_of, join};
use regex::RegexSet;
use vstd::prelude::*;

verus! {

/// `regex::RegexSet`, a collection of regular expressions that are searched for together.
#[verifier::external_type_specification]
#[verifier::external_body]
pub struct ExRegexSet(RegexSet);

/// `regex::Error`.
#[verifier::external_type_specification]
#[verifier::external_body]
pub struct ExRegexError(regex::Error);

/// The regular expressions that a set was compiled from.
pub uninterp spec fn set_patterns(set: RegexSet) -> Seq<Seq<char>>;

/// Whether one of the regular expressions matches somewhere in a text.
pub uninterp spec fn any_match(patterns: Seq<Seq<char>>, text: Seq<char>) -> bool;

/// `RegexSet::new`. The set holds the given expressions. Whether the call succeeds is left
/// open: it also depends on how many bytes the compiled expressions take on the machine.
#[verifier::external_body]
pub(crate) fn compile(patterns: &Vec<String>) -> (r: Result<RegexSet, regex::Error>)
    ensures
        r matches Ok(set) ==> set_patterns(set) == patterns.deep_view(),
{
    RegexSet::new(patterns)
}

/// `RegexSet::is_match`. The contract names the result, which depends on the expressions and
/// the text.
#[verifier::external_body]
pub(crate) fn matches_any(set: &RegexSet, s: &str) -> (r: bool)
    ensures
        r == any_match(set_patterns(*set), s@),
{
    set.is_match(s)
}

/// The text of an error of the compilation.
pub uninterp spec fn error_text(e: regex::Error) -> Seq<char>;

/// `to_string` of a `regex::Error`. The contract names the text, which depends on the error alone.
#[verifier::external_body]
pub(crate) fn describe_error(e: &regex::Error) -> (r: String)
    ensures
        r@ == error_text(*e),
{
    e.to_string()
}

/// A set of patterns could not be compiled.
#[derive(Debug)]
pub struct PatternError {
    /// Which set.
    pub set: String,
}

/// Compiles the patterns of the set that is called `name`.
pub fn compile_set(name: &str, patterns: &[&str]) -> (r: Result<RegexSet, PatternError>)
    ensures
        r matches Ok(set) ==> set_patterns(set) == text::texts(patterns@),
        r matches Err(e) ==> e.set@ == name@,
{
    let mut list: Vec<String> = Vec::new();
    for i in 0..patterns.len()
        invariant
            list@.len() == i,
            forall|j: int| 0 <= j < i ==> (#[trigger] list@[j])@ == patterns@[j]@,
    {
        list.push(patterns[i].to_string());
    }
    assert(list.deep_view() =~= text::texts(patterns@));
    named_outcome(name, compile(&list))
}

/// What the compilation of the set that is called `name` came to: the set, or a failure that
/// names it.
pub fn named_outcome(name: &str, outcome: Result<RegexSet, regex::Error>) -> (r: Result<RegexSet, PatternError>)
    ensures
        outcome matches Ok(set) ==> r == Ok::<RegexSet, PatternError>(set),
        outcome is Err ==> (r matches Err(e) && e.set@ == name@),
{
    match outcome {
        Ok(set) => Ok(set),
        Err(_) => Err(PatternError { set: name.to_string() }),
    }
}

#[derive(Debug)]
pub struct Hit {
    pub rule_id: String,
    pub category: String,
    pub matched_field: &'static str,
    pub matched_excerpt: String,
}

#[verifier::ext_equal]
pub struct HitView {
    pub rule_id: Seq<char>,
    pub category: Seq<char>,
    pub matched_field: Seq<char>,
    pub matched_excerpt: Seq<char>,
}

impl View for Hit {
    type V = HitView;

    open spec fn view(&self) -> HitView {
        HitView {
            rule_id: self.rule_id@,
            category: self.category@,
            matched_field: self.matched_field@,
            matched_excerpt: self.matched_excerpt@,
        }
    }
}

/// The texts of a request that are scanned, normalized once.
pub struct Surface {
    pub uri: String,
    pub query_decoded: String,
    pub path_decoded: String,
    pub headers_concat: String,
    pub body_preview: String,
    pub user_agent: String,
}

#[verifier::ext_equal]
pub struct SurfaceView {
    pub uri: Seq<char>,
    pub query_decoded: Seq<char>,
    pub path_decoded: Seq<char>,
    pub headers_concat: Seq<char>,
    pub body_preview: Seq<char>,
    pub user_agent: Seq<char>,
}

impl View for Surface {
    type V = SurfaceView;

    open spec fn view(&self) -> SurfaceView {
        SurfaceView {
            uri: self.uri@,
            query_decoded: self.query_decoded@,
            path_decoded: self.path_decoded@,
            headers_concat: self.headers_concat@,
            body_preview: self.body_preview@,
            user_agent: self.user_agent@,
        }
    }
}

/// The headers that every request has, and which are not scanned.
pub open spec fn skipped_headers() -> Seq<Seq<char>> {
    seq![
        "cookie"@,
        "authorization"@,
        "content-length"@,
        "content-type"@,
        "host"@,
        "user-agent"@,
        "accept"@,
        "accept-encoding"@,
        "accept-language"@,
        "connection"@,
        "upgrade"@,
        "keep-alive"@,
        "te"@,
        "transfer-encoding"@,
    ]
}

pub open spec fn skipped_header(name: Seq<char>) -> bool {
    skipped_headers().contains(name)
}

pub fn is_skip_header(name: &str) -> (r: bool)
    ensures
        r == skipped_header(name@),
{
    let list = [
        "cookie",
        "authorization",
        "content-length",
        "content-type",
        "host",
        "user-agent",
        "accept",
        "accept-encoding",
        "accept-language",
        "connection",
        "upgrade",
        "keep-alive",
        "te",
        "transfer-encoding",
    ];
    assert(text::texts(list@) =~= skipped_headers());
    is_one_of(name, &list)
}

/// The lines of the headers that are scanned, in their order.
pub open spec fn header_lines(entries: Seq<request::Pair>) -> Seq<Seq<char>>
    decreases entries.len(),
{
    if entries.len() == 0 {
        seq![]
    } else {
        let before = header_lines(entries.drop_last());
        let (name, value) = entries.last();
        if skipped_header(name) {
            before
        } else {
            before.push(name + ": "@ + value)
        }
    }
}

fn scanned_headers(headers: &TextMap) -> (r: String)
    ensures
        r@ == text::joined(header_lines(headers@), "\n"@),
{
    let mut lines: Vec<String> = Vec::new();
    let n: usize = headers.len();
    for i in 0..n
        invariant
            n == headers@.len(),
            lines.deep_view() == header_lines(headers@.take(i as int)),
    {
        let (name, value) = headers.entry(i);
        proof {
            assert(headers@.take(i + 1).drop_last() =~= headers@.take(i as int));
            assert(headers@.take(i + 1).last() == headers@[i as int]);
        }
        if !is_skip_header(name.as_str()) {
            let ghost before = lines.deep_view();
            let line = cat3(name.as_str(), ": ", value.as_str());
            let ghost added = line@;
            lines.push(line);
            assert(lines.deep_view() =~= before.push(added));
        }
    }
    assert(headers@.take(n as int) =~= headers@);
    join(&lines, "\n")
}

/// What is scanned of a request.
pub open spec fn surface_of(ctx: RequestCtx) -> SurfaceView {
    SurfaceView {
        uri: ctx.uri@,
        query_decoded: decode::decoded_text(ctx.query@),
        path_decoded: decode::decoded_text(ctx.path@),
        headers_concat: text::joined(header_lines(ctx.headers@), "\n"@),
        body_preview: decode::lossy_text(ctx.body_preview@),
        user_agent: ctx.user_agent@,
    }
}

impl Surface {
    pub fn from(ctx: &RequestCtx) -> (r: Surface)
        ensures
            r@ == surface_of(*ctx),
    {
        Surface {
            uri: ctx.uri.clone(),
            query_decoded: decode(ctx.query.as_str()),
            path_decoded: decode(ctx.path.as_str()),
            headers_concat: scanned_headers(&ctx.headers),
            body_preview: lossy(ctx.body_preview.as_slice()),
            user_agent: ctx.user_agent.clone(),
        }
    }
}

/// A line break becomes a blank.
pub open spec fn flat_char(c: char) -> char {
    if c == '\r' || c == '\n' {
        ' '
    } else {
        c
    }
}

/// A short excerpt on one line.
pub open spec fn excerpt_of(s: Seq<char>) -> Seq<char> {
    text::head(s, 96).map_values(|c: char| flat_char(c))
}

pub fn excerpt(s: &str) -> (r: String)
    ensures
        r@ == excerpt_of(s@),
{
    let trimmed = first_chars(s, 96);
    let mut out = String::new();
    for c in it: trimmed.as_str().chars()
        invariant
            it.seq() == trimmed@,
            out@.len() == it.index(),
            forall|j: int| 0 <= j < it.index() ==> out@[j] == flat_char(trimmed@[j]),
    {
        if c == '\r' || c == '\n' {
            out.push(' ');
        } else {
            out.push(c);
        }
    }
    assert(out@ =~= excerpt_of(s@));
    out
}

/// The index of the first text that one of the patterns matches, or the number of texts.
pub open spec fn first_matching(patterns: Seq<Seq<char>>, fields: Seq<request::Pair>) -> int
    decreases fields.len(),
{
    if fields.len() == 0 || any_match(patterns, fields[0].1) {
        0
    } else {
        1 + first_matching(patterns, fields.drop_first())
    }
}

/// The report on the field at `i`, if there is one.
pub open spec fn hit_of(rule_id: Seq<char>, category: Seq<char>, fields: Seq<request::Pair>, i: int) -> Option<
    HitView,
> {
    if 0 <= i < fields.len() {
        Some(HitView { rule_id, category, matched_field: fields[i].0, matched_excerpt: excerpt_of(fields[i].1) })
    } else {
        None
    }
}

/// What a scan of named texts for patterns reports.
pub open spec fn scanned(
    rule_id: Seq<char>,
    category: Seq<char>,
    patterns: Seq<Seq<char>>,
    fields: Seq<request::Pair>,
) -> Option<HitView> {
    hit_of(rule_id, category, fields, first_matching(patterns, fields))
}

/// The names and texts of a list of fields.
pub open spec fn field_views(fields: Seq<(&'static str, &str)>) -> Seq<request::Pair> {
    Seq::new(fields.len(), |i: int| (fields[i].0@, fields[i].1@))
}

/// The view of an optional hit.
pub open spec fn hit_view(h: Option<Hit>) -> Option<HitView> {
    match h {
        Some(h) => Some(h@),
        None => None,
    }
}

/// The report on the field at `i`, if there is one.
pub fn hit_at(rule_id: &str, category: &str, fields: &[(&'static str, &str)], i: usize) -> (r: Option<Hit>)
    ensures
        hit_view(r) == hit_of(rule_id@, category@, field_views(fields@), i as int),
{
    if i < fields.len() {
        Some(
            Hit {
                rule_id: rule_id.to_string(),
                category: category.to_string(),
                matched_field: fields[i].0,
                matched_excerpt: excerpt(fields[i].1),
            },
        )
    } else {
        None
    }
}

/// The first match is the one that no other comes before.
pub proof fn lemma_first_matching(patterns: Seq<Seq<char>>, fields: Seq<request::Pair>, i: int)
    requires
        0 <= i <= fields.len(),
        forall|j: int| 0 <= j < i ==> !any_match(patterns, (#[trigger] fields[j]).1),
        i < fields.len() ==> any_match(patterns, fields[i].1),
    ensures
        first_matching(patterns, fields) == i,
    decreases fields.len(),
{
    if i > 0 {
        assert(!any_match(patterns, fields[0].1));
        let rest = fields.drop_first();
        assert forall|j: int| 0 <= j < i - 1 implies !any_match(patterns, (#[trigger] rest[j]).1) by {
            assert(rest[j] == fields[j + 1]);
        }
        lemma_first_matching(patterns, rest, i - 1);
    }
}

/// Scans named texts for the patterns of a set.
pub fn scan_fields(set: &RegexSet, rule_id: &str, category: &str, fields: &[(&'static str, &str)]) -> (r: Option<Hit>)
    ensures
        hit_view(r) == scanned(rule_id@, category@, set_patterns(*set), field_views(fields@)),
{
    let mut i: usize = 0;
    let ghost views = field_views(fields@);
    while i < fields.len() && !matches_any(set, fields[i].1)
        invariant
            i <= fields@.len(),
            views == field_views(fields@),
            forall|j: int| 0 <= j < i ==> !any_match(set_patterns(*set), (#[trigger] views[j]).1),
        decreases fields@.len() - i,
    {
        i += 1;
    }
    proof {
        lemma_first_matching(set_patterns(*set), views, i as int);
    }
    hit_at(rule_id, category, fields, i)
}

// ---------------------------------------------------------------------------
// Laws
// ---------------------------------------------------------------------------

/// An excerpt keeps the first 96 characters, each as it is but for line breaks, which become
/// blanks.
pub proof fn lemma_excerpt(s: Seq<char>)
    ensures
        s.len() <= 96 ==> excerpt_of(s).len() == s.len(),
        s.len() > 96 ==> excerpt_of(s).len() == 96,
        forall|i: int|
            0 <= i < excerpt_of(s).len() ==> #[trigger] excerpt_of(s)[i] == (if s[i] == '\r' || s[i] == '\n' {
                ' '
            } else {
                s[i]
            }),
{
}

/// The headers that are left out are those that every request has and those that hold secrets.
pub proof fn lemma_skipped(name: Seq<char>)
    ensures
        skipped_header(name) <==> (name == "cookie"@ || name == "authorization"@ || name == "content-length"@ || name
            == "content-type"@ || name == "host"@ || name == "user-agent"@ || name == "accept"@ || name
            == "accept-encoding"@ || name == "accept-language"@ || name == "connection"@ || name == "upgrade"@ || name
            == "keep-alive"@ || name == "te"@ || name == "transfer-encoding"@),
{
    let l = skipped_headers();
    assert(l[0] == "cookie"@ && l[1] == "authorization"@ && l[2] == "content-length"@ && l[3] == "content-type"@);
    assert(l[4] == "host"@ && l[5] == "user-agent"@ && l[6] == "accept"@ && l[7] == "accept-encoding"@);
    assert(l[8] == "accept-language"@ && l[9] == "connection"@ && l[10] == "upgrade"@ && l[11] == "keep-alive"@);
    assert(l[12] == "te"@ && l[13] == "transfer-encoding"@ && l.len() == 14);
}

/// Every header that is not left out is scanned with its name and its whole value, and nothing
/// else is.
pub proof fn lemma_header_scanned(entries: Seq<request::Pair>, line: Seq<char>)
    ensures
        header_lines(entries).contains(line) <==> exists|i: int|
            0 <= i < entries.len() && !skipped_header((#[trigger] entries[i]).0) && line == entries[i].0 + ": "@
                + entries[i].1,
    decreases entries.len(),
{
    if entries.len() > 0 {
        let rest = entries.drop_last();
        let n = entries.len() - 1;
        lemma_header_scanned(rest, line);
        let before = header_lines(rest);
        let all = header_lines(entries);
        if before.contains(line) {
            let j = choose|j: int| 0 <= j < before.len() && before[j] == line;
            assert(all[j] == line);
            let i = choose|i: int|
                0 <= i < rest.len() && !skipped_header((#[trigger] rest[i]).0) && line == rest[i].0 + ": "@ + rest[i].1;
            assert(entries[i] == rest[i]);
        }
        if exists|i: int|
            0 <= i < entries.len() && !skipped_header((#[trigger] entries[i]).0) && line == entries[i].0 + ": "@
                + entries[i].1 {
            let i = choose|i: int|
                0 <= i < entries.len() && !skipped_header((#[trigger] entries[i]).0) && line == entries[i].0 + ": "@
                    + entries[i].1;
            if i < n {
                assert(rest[i] == entries[i]);
            } else {
                assert(all[all.len() - 1] == line);
            }
        }
        if all.contains(line) && !before.contains(line) {
            let j = choose|j: int| 0 <= j < all.len() && all[j] == line;
            if j < before.len() {
                assert(before[j] == line);
            }
            assert(entries[n].0 + ": "@ + entries[n].1 == line);
        }
    }
}

/// A header's value stands in the text that is scanned, unless the header is left out.
pub proof fn lemma_header_value_scanned(ctx: RequestCtx, i: int)
    requires
        0 <= i < ctx.headers@.len(),
        !skipped_header(ctx.headers@[i].0),
    ensures
        text::has_text(surface_of(ctx).headers_concat, ctx.headers@[i].0 + ": "@ + ctx.headers@[i].1),
        text::has_text(surface_of(ctx).headers_concat, ctx.headers@[i].1),
{
    let (n, v) = ctx.headers@[i];
    let line = n + ": "@ + v;
    let lines = header_lines(ctx.headers@);
    lemma_header_scanned(ctx.headers@, line);
    let j = choose|j: int| 0 <= j < lines.len() && lines[j] == line;
    text::lemma_joined_holds(lines, "\n"@, j);
    let all = surface_of(ctx).headers_concat;
    let k = choose|k: int| text::occurs_at(all, line, k);
    let m = k + (n + ": "@).len();
    assert(all.subrange(k, k + line.len()) == line);
    assert forall|x: int| 0 <= x < v.len() implies all.subrange(m, m + v.len())[x] == v[x] by {
        assert(all.subrange(k, k + line.len())[(n + ": "@).len() + x] == line[(n + ": "@).len() + x]);
    }
    assert(all.subrange(m, m + v.len()) =~= v);
    assert(text::occurs_at(all, v, m));
}

/// The address is scanned as it came, the path and the query after one pass of percent decoding, and the body
/// byte by byte.
pub proof fn lemma_surface(ctx: RequestCtx)
    ensures
        surface_of(ctx).uri == ctx.uri@,
        surface_of(ctx).path_decoded == decode::lossy_text(
            decode::percent_decoded(vstd::utf8::encode_utf8(ctx.path@)),
        ),
        surface_of(ctx).query_decoded == decode::lossy_text(
            decode::percent_decoded(vstd::utf8::encode_utf8(ctx.query@)),
        ),
        surface_of(ctx).body_preview == decode::lossy_text(ctx.body_preview@),
        surface_of(ctx).user_agent == ctx.user_agent@,
{
}

/// The headers that are scanned stand on a line each.
pub proof fn lemma_header_text(ctx: RequestCtx)
    ensures
        surface_of(ctx).headers_concat == text::joined(header_lines(ctx.headers@), seq!['\n']),
{
    reveal_strlit("\n");
    assert("\n"@ =~= seq!['\n']);
}

} // verus!
