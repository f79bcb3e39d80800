//! The server of the dashboard: how its requests are read, who may ask, what each endpoint does,
//! and the watchdog that moves the under-attack level by itself.
//!
//! Every endpoint under `/api/` wants the token of the run-time state, in an `Authorization`
//! header or, for clients that cannot set one, in the query. The dashboard itself is open to all.

use crate::clock::now_secs;
use crate::connections;
use crate::decode::{self, decode, utf8_text};
use crate::engine::{self, Engine, EngineView};
use crate::events::{self, Event};
use crate::goodbot::{self, VerifyEntry};
use crate::http::{self, find_double_crlf, front, tail};
use crate::json::{self, json_string};
use crate::metrics::{self, Snapshot};
use crate::net::{self, parse_ip, IpAddr};
use crate::num::{self, dec, parse_bounded};
use crate::ratelimit;
use crate::reputation::{self, RepView};
use crate::request::{self, TextMap};
use crate::runtime::{
    self, merge_rules, pick_bool, pick_level, pick_u32, PersistedDefenses, PersistedRuntime, PersistedToggles, Runtime,
    RuntimeView,
};
use crate::text::{self, cat3, same_text, split, split_lines, split_once, split_words, starts_with, strip_prefix};
use crate::text::{to_lower, trim};
use vstd::prelude::*;

verus! {

// ---------------------------------------------------------------------------
// Reading a request
// ---------------------------------------------------------------------------

/// The number of bytes that a head may have.
pub const MAX_HEAD: usize = 65_536;

/// The number of bytes that are read of a body.
pub const MAX_BODY: usize = 1_048_576;

/// The number of bytes that are read of a body at a time.
pub const BODY_CHUNK: usize = 8192;

/// What is known after some bytes have been read.
#[derive(Debug, Clone, Copy, PartialEq, Eq, Structural)]
pub enum HeadStep {
    /// The head goes on.
    More,
    /// The head is too long, and the connection is dropped.
    Refused,
    /// The head ends here.
    Ended(usize),
}

/// Looks for the end of the head in the bytes that have been read.
pub fn head_step(buf: &[u8]) -> (r: HeadStep)
    ensures
        r is Refused <==> buf@.len() > MAX_HEAD,
        r is More <==> buf@.len() <= MAX_HEAD && forall|j: int| !#[trigger] http::blank_line_at(buf@, j),
        r matches HeadStep::Ended(i) ==> http::first_blank_line(buf@, Some(i as int)),
{
    if buf.len() > MAX_HEAD {
        return HeadStep::Refused;
    }
    match find_double_crlf(buf) {
        Some(i) => HeadStep::Ended(i),
        None => HeadStep::More,
    }
}

/// A request to the server of the dashboard.
#[derive(Debug)]
pub struct ParsedReq {
    pub method: String,
    pub path: String,
    pub query: TextMap,
    pub headers: TextMap,
    pub body: Vec<u8>,
}

/// The names and values in the query of a target. A part without a value gets an empty one, and
/// the last value of a name wins.
pub open spec fn query_of(parts: Seq<Seq<char>>) -> Seq<request::Pair>
    decreases parts.len(),
{
    if parts.len() == 0 {
        seq![]
    } else {
        let before = query_of(parts.drop_last());
        let part = parts.last();
        if part.len() == 0 {
            before
        } else {
            match text::cut_at(part, '=') {
                Some((k, v)) => request::put(before, decode::decoded_text(k), decode::decoded_text(v)),
                None => request::put(before, decode::decoded_text(part), ""@),
            }
        }
    }
}

pub fn parse_query(s: &str) -> (r: TextMap)
    ensures
        r@ == query_of(text::pieces(s@, '&')),
        request::distinct(r@),
{
    let parts = split(s, '&');
    let ghost all = text::pieces(s@, '&');
    let mut out = TextMap::new();
    for i in 0..parts.len()
        invariant
            parts.deep_view() == all,
            out@ == query_of(all.take(i as int)),
            request::distinct(out@),
    {
        let part = parts[i].as_str();
        proof {
            reveal_strlit("");
            assert(part@ == all[i as int]);
            assert(part@.len() == 0 ==> part@ =~= ""@);
            assert(all.take(i + 1).drop_last() =~= all.take(i as int));
            assert(all.take(i + 1).last() == all[i as int]);
        }
        if !same_text(part, "") {
            match split_once(part, '=') {
                Some((k, v)) => {
                    out.insert(decode(k.as_str()), decode(v.as_str()));
                },
                None => {
                    out.insert(decode(part), "".to_string());
                },
            }
        }
    }
    assert(all.take(all.len() as int) =~= all);
    out
}

/// The headers in the lines of a head by lower-cased name; the last value of a name wins.
pub open spec fn headers_in(lines: Seq<Seq<char>>) -> Seq<request::Pair>
    decreases lines.len(),
{
    if lines.len() == 0 {
        seq![]
    } else {
        let before = headers_in(lines.drop_last());
        match text::cut_at(lines.last(), ':') {
            Some((k, v)) => request::put(before, text::lower_text(text::trimmed(k)), text::trimmed(v)),
            None => before,
        }
    }
}

/// The length of the body that a head announces, as far as it is read.
pub open spec fn announced(headers: Seq<request::Pair>) -> nat {
    match request::lookup(headers, "content-length"@) {
        Some(v) => match num::parse_up_to(v, usize::MAX as nat) {
            Some(n) => if n < MAX_BODY {
                n
            } else {
                MAX_BODY as nat
            },
            None => 0,
        },
        None => 0,
    }
}

/// The text of a head, which is empty where its bytes are no text.
pub open spec fn head_chars(head: Seq<u8>) -> Seq<char> {
    if vstd::utf8::valid_utf8(head) {
        vstd::utf8::decode_utf8(head)
    } else {
        ""@
    }
}

/// The target of a request.
pub open spec fn target_in(line: Seq<char>) -> Seq<char> {
    if text::words_of(line).len() > 1 {
        text::words_of(line)[1]
    } else {
        "/"@
    }
}

pub open spec fn method_in(line: Seq<char>) -> Seq<char> {
    if text::words_of(line).len() > 0 {
        text::words_of(line)[0]
    } else {
        ""@
    }
}

pub open spec fn path_in(target: Seq<char>) -> Seq<char> {
    match text::cut_at(target, '?') {
        Some((p, _)) => p,
        None => target,
    }
}

pub open spec fn query_in(target: Seq<char>) -> Seq<char> {
    match text::cut_at(target, '?') {
        Some((_, q)) => q,
        None => ""@,
    }
}

/// Whether `r` is what the bytes of a head say.
pub open spec fn reads_head(r: ParsedReq, head: Seq<u8>) -> bool {
    let lines = text::lines_of(head_chars(head));
    let target = target_in(lines[0]);
    &&& r.method@ == method_in(lines[0])
    &&& r.path@ == path_in(target)
    &&& r.query@ == query_of(text::pieces(query_in(target), '&'))
    &&& r.headers@ == headers_in(lines.skip(1))
}

fn collect_lines(lines: &Vec<String>) -> (r: TextMap)
    requires
        lines@.len() >= 1,
    ensures
        r@ == headers_in(lines.deep_view().skip(1)),
        request::distinct(r@),
{
    let ghost all = lines.deep_view().skip(1);
    let mut out = TextMap::new();
    assert(all.take(0) =~= seq![]);
    for i in 1..lines.len()
        invariant
            all == lines.deep_view().skip(1),
            out@ == headers_in(all.take(i - 1)),
            request::distinct(out@),
    {
        proof {
            assert(lines@[i as int]@ == all[i - 1]);
            assert(all.take(i as int).drop_last() =~= all.take(i - 1));
            assert(all.take(i as int).last() == all[i - 1]);
        }
        if let Some((k, v)) = split_once(lines[i].as_str(), ':') {
            let name = to_lower(trim(k.as_str()).as_str());
            out.insert(name, trim(v.as_str()));
        }
    }
    assert(all.take(all.len() as int) =~= all);
    out
}

/// Reads a request whose head ends at `header_end`. The body is what has been read of it.
pub fn parse_head(buf: &[u8], header_end: usize) -> (r: ParsedReq)
    requires
        http::blank_line_at(buf@, header_end as int),
    ensures
        reads_head(r, buf@.take(header_end as int)),
        r.body@ == buf@.skip(header_end + 4),
{
    let bytes = front(buf, header_end);
    let head = match utf8_text(bytes.as_slice()) {
        Some(t) => t,
        None => "".to_string(),
    };
    let lines = split_lines(head.as_str());
    assert(lines@[0]@ == lines.deep_view()[0]);
    let words = split_words(lines[0].as_str());
    assert(forall|i: int| 0 <= i < words@.len() ==> (#[trigger] words@[i])@ == words.deep_view()[i]);
    let method = if words.len() > 0 {
        words[0].clone()
    } else {
        "".to_string()
    };
    let target = if words.len() > 1 {
        words[1].clone()
    } else {
        "/".to_string()
    };
    let (path, query_text) = match split_once(target.as_str(), '?') {
        Some((p, q)) => (p, q),
        None => (target.clone(), "".to_string()),
    };
    let headers = collect_lines(&lines);
    let have: usize = buf.len();
    assert(header_end + 4 <= have);
    ParsedReq {
        method,
        path,
        query: parse_query(query_text.as_str()),
        headers,
        body: tail(buf, header_end + 4),
    }
}

/// How many bytes are read next of a body of `whole` bytes of which `have` are there.
pub open spec fn next_chunk(have: nat, whole: nat) -> int {
    if have >= whole {
        0
    } else if whole - have < BODY_CHUNK {
        whole - have
    } else {
        BODY_CHUNK as int
    }
}

/// A body without what was read behind its end.
pub open spec fn closed_body(body: Seq<u8>, whole: nat) -> Seq<u8> {
    if body.len() > whole {
        body.take(whole as int)
    } else {
        body
    }
}

impl ParsedReq {
    /// The length of the body, as far as it is read.
    pub fn content_length(&self) -> (r: usize)
        ensures
            r == announced(self.headers@),
            r <= MAX_BODY,
    {
        match self.headers.get("content-length") {
            Some(v) => match parse_bounded(v.as_str(), usize::MAX as u64) {
                Some(n) => if n < MAX_BODY as u64 {
                    n as usize
                } else {
                    MAX_BODY
                },
                None => 0,
            },
            None => 0,
        }
    }

    /// How many bytes of the body are read next; zero when there are enough.
    pub fn body_wanted(&self) -> (r: usize)
        ensures
            r == next_chunk(self.body@.len(), announced(self.headers@)),
    {
        let whole: usize = self.content_length();
        let have: usize = self.body.len();
        if have >= whole {
            0
        } else if whole - have < BODY_CHUNK {
            whole - have
        } else {
            BODY_CHUNK
        }
    }

    /// Drops what was read behind the end of the body.
    pub fn close_body(&mut self)
        ensures
            final(self).body@ == closed_body(old(self).body@, announced(old(self).headers@)),
            final(self).method == old(self).method,
            final(self).path == old(self).path,
            final(self).query == old(self).query,
            final(self).headers == old(self).headers,
    {
        let whole: usize = self.content_length();
        if self.body.len() > whole {
            self.body = front(self.body.as_slice(), whole);
        }
    }
}

// ---------------------------------------------------------------------------
// Time frames
// ---------------------------------------------------------------------------

/// The milliseconds that a name of a range stands for.
pub open spec fn span_of(name: Option<Seq<char>>) -> u64 {
    match name {
        Some(n) => if n == "6h"@ {
            21_600_000
        } else if n == "24h"@ {
            86_400_000
        } else if n == "1h"@ {
            3_600_000
        } else {
            1_800_000
        },
        None => 1_800_000,
    }
}

/// The number that a value of the query gives, if it is one.
pub open spec fn number_in(query: Seq<request::Pair>, name: Seq<char>, max: nat) -> Option<nat> {
    match request::lookup(query, name) {
        Some(v) => num::parse_up_to(v, max),
        None => None,
    }
}

/// The time frame of a query: the two ends where both are given, else a span up to now.
pub open spec fn range_of(query: Seq<request::Pair>, now_ms: u64) -> (nat, nat) {
    match (number_in(query, "since"@, u64::MAX as nat), number_in(query, "until"@, u64::MAX as nat)) {
        (Some(s), Some(u)) => (
            s,
            if u > s {
                u
            } else {
                s
            },
        ),
        _ => {
            let span = span_of(request::lookup(query, "range"@));
            (
                if now_ms > span {
                    (now_ms - span) as nat
                } else {
                    0
                },
                now_ms as nat,
            )
        },
    }
}

/// No time frame ends before it begins.
pub proof fn lemma_range_ordered(query: Seq<request::Pair>, now_ms: u64)
    ensures
        range_of(query, now_ms).0 <= range_of(query, now_ms).1,
{
}

fn query_number(q: &TextMap, name: &str, max: u64) -> (r: Option<u64>)
    ensures
        match r {
            Some(n) => number_in(q@, name@, max as nat) == Some(n as nat),
            None => number_in(q@, name@, max as nat) is None,
        },
{
    match q.get(name) {
        Some(v) => parse_bounded(v.as_str(), max),
        None => None,
    }
}

pub fn parse_range(q: &TextMap, now_ms: u64) -> (r: (u64, u64))
    ensures
        (r.0 as nat, r.1 as nat) == range_of(q@, now_ms),
{
    let since = query_number(q, "since", u64::MAX);
    let until = query_number(q, "until", u64::MAX);
    if let Some(s) = since {
        if let Some(u) = until {
            return (
                s,
                if u > s {
                    u
                } else {
                    s
                },
            );
        }
    }
    let span: u64 = match q.get("range") {
        Some(n) => if same_text(n.as_str(), "6h") {
            21_600_000
        } else if same_text(n.as_str(), "24h") {
            86_400_000
        } else if same_text(n.as_str(), "1h") {
            3_600_000
        } else {
            1_800_000
        },
        None => 1_800_000,
    };
    (
        if now_ms > span {
            now_ms - span
        } else {
            0
        },
        now_ms,
    )
}

// ---------------------------------------------------------------------------
// Who may ask, and for what
// ---------------------------------------------------------------------------

/// Whether a request carries the token. Where there is no token everybody may ask. A header that
/// names a scheme decides; only without one does the query count.
pub open spec fn authorized(headers: Seq<request::Pair>, query: Seq<request::Pair>, token: Seq<char>) -> bool {
    let header = match request::lookup(headers, "authorization"@) {
        Some(h) => h,
        None => ""@,
    };
    if token.len() == 0 {
        true
    } else if text::has_prefix(header, "Bearer "@) {
        header.skip("Bearer "@.len() as int) == token
    } else if text::has_prefix(header, "bearer "@) {
        header.skip("bearer "@.len() as int) == token
    } else {
        request::lookup(query, "token"@) == Some(token)
    }
}

pub fn auth_ok(req: &ParsedReq, token: &str) -> (r: bool)
    ensures
        r == authorized(req.headers@, req.query@, token@),
{
    proof {
        reveal_strlit("");
        assert(token@.len() == 0 ==> token@ =~= ""@);
    }
    if same_text(token, "") {
        return true;
    }
    let header = match req.headers.get("authorization") {
        Some(h) => h.as_str(),
        None => "",
    };
    if let Some(rest) = strip_prefix(header, "Bearer ") {
        return same_text(rest.as_str(), token);
    }
    if let Some(rest) = strip_prefix(header, "bearer ") {
        return same_text(rest.as_str(), token);
    }
    match req.query.get("token") {
        Some(t) => same_text(t.as_str(), token),
        None => false,
    }
}

/// The endpoints of the server.
#[derive(Debug, Clone, Copy, PartialEq, Eq, Structural)]
pub enum Endpoint {
    /// The token is wanted, and was not given.
    Unauthorized,
    /// The stream of events.
    Stream,
    /// The stored events of a time frame.
    Range,
    /// The stored events of a time frame, counted by intervals.
    Series,
    State,
    Events,
    GoodBots,
    Banned,
    Patch,
    Uam,
    UnderAttack,
    Allow,
    Deny,
    Unallow,
    Undeny,
    Unban,
    /// An endpoint under `/api/` that does not exist.
    UnknownApi,
    Health,
    Page,
    Script,
    Style,
    /// A file that does not exist.
    UnknownFile,
}

/// The endpoint under `/api/` that a method and a path stand for.
pub open spec fn api_endpoint(method: Seq<char>, path: Seq<char>) -> Endpoint {
    if method == "GET"@ {
        if path == "/api/stream"@ {
            Endpoint::Stream
        } else if path == "/api/events/range"@ {
            Endpoint::Range
        } else if path == "/api/events/series"@ {
            Endpoint::Series
        } else if path == "/api/state"@ {
            Endpoint::State
        } else if path == "/api/events"@ {
            Endpoint::Events
        } else if path == "/api/goodbots"@ {
            Endpoint::GoodBots
        } else if path == "/api/banned"@ {
            Endpoint::Banned
        } else {
            Endpoint::UnknownApi
        }
    } else if method == "POST"@ {
        if path == "/api/runtime"@ {
            Endpoint::Patch
        } else if path == "/api/uam"@ {
            Endpoint::Uam
        } else if path == "/api/under_attack"@ {
            Endpoint::UnderAttack
        } else if path == "/api/ip/allow"@ {
            Endpoint::Allow
        } else if path == "/api/ip/deny"@ {
            Endpoint::Deny
        } else if path == "/api/ip/unallow"@ {
            Endpoint::Unallow
        } else if path == "/api/ip/undeny"@ {
            Endpoint::Undeny
        } else if path == "/api/unban"@ {
            Endpoint::Unban
        } else {
            Endpoint::UnknownApi
        }
    } else {
        Endpoint::UnknownApi
    }
}

/// The paths under which the dashboard is found.
pub open spec fn page_paths() -> Seq<Seq<char>> {
    seq!["/"@, "/index.html"@, "/firewall"@, "/traffic"@, "/settings"@]
}

/// The file that a method and a path stand for.
pub open spec fn file_endpoint(method: Seq<char>, path: Seq<char>) -> Endpoint {
    if method != "GET"@ {
        Endpoint::UnknownFile
    } else if path == "/healthz"@ {
        Endpoint::Health
    } else if page_paths().contains(path) {
        Endpoint::Page
    } else if path == "/static/dashboard.js"@ {
        Endpoint::Script
    } else if path == "/static/dashboard.css"@ {
        Endpoint::Style
    } else {
        Endpoint::UnknownFile
    }
}

/// The endpoint that a request reaches.
pub open spec fn endpoint_for(
    method: Seq<char>,
    path: Seq<char>,
    headers: Seq<request::Pair>,
    query: Seq<request::Pair>,
    token: Seq<char>,
) -> Endpoint {
    if text::has_prefix(path, "/api/"@) {
        if authorized(headers, query, token) {
            api_endpoint(method, path)
        } else {
            Endpoint::Unauthorized
        }
    } else {
        file_endpoint(method, path)
    }
}

fn route_get(path: &str) -> (r: Endpoint)
    ensures
        r == api_endpoint("GET"@, path@),
{
    if same_text(path, "/api/stream") {
        Endpoint::Stream
    } else if same_text(path, "/api/events/range") {
        Endpoint::Range
    } else if same_text(path, "/api/events/series") {
        Endpoint::Series
    } else if same_text(path, "/api/state") {
        Endpoint::State
    } else if same_text(path, "/api/events") {
        Endpoint::Events
    } else if same_text(path, "/api/goodbots") {
        Endpoint::GoodBots
    } else if same_text(path, "/api/banned") {
        Endpoint::Banned
    } else {
        Endpoint::UnknownApi
    }
}

fn route_post(path: &str) -> (r: Endpoint)
    ensures
        r == api_endpoint("POST"@, path@),
{
    proof {
        reveal_strlit("GET");
        reveal_strlit("POST");
        assert("GET"@.len() != "POST"@.len());
    }
    if same_text(path, "/api/runtime") {
        Endpoint::Patch
    } else if same_text(path, "/api/uam") {
        Endpoint::Uam
    } else if same_text(path, "/api/under_attack") {
        Endpoint::UnderAttack
    } else if same_text(path, "/api/ip/allow") {
        Endpoint::Allow
    } else if same_text(path, "/api/ip/deny") {
        Endpoint::Deny
    } else if same_text(path, "/api/ip/unallow") {
        Endpoint::Unallow
    } else if same_text(path, "/api/ip/undeny") {
        Endpoint::Undeny
    } else if same_text(path, "/api/unban") {
        Endpoint::Unban
    } else {
        Endpoint::UnknownApi
    }
}

/// The file that a request is for.
pub fn route_static(method: &str, path: &str) -> (r: Endpoint)
    ensures
        r == file_endpoint(method@, path@),
{
    if !same_text(method, "GET") {
        return Endpoint::UnknownFile;
    }
    let page = same_text(path, "/") || same_text(path, "/index.html") || same_text(path, "/firewall") || same_text(
        path,
        "/traffic",
    ) || same_text(path, "/settings");
    proof {
        let list = page_paths();
        assert(list[0] == "/"@ && list[1] == "/index.html"@ && list[2] == "/firewall"@ && list[3] == "/traffic"@
            && list[4] == "/settings"@);
        assert(page == list.contains(path@));
    }
    if same_text(path, "/healthz") {
        Endpoint::Health
    } else if page {
        Endpoint::Page
    } else if same_text(path, "/static/dashboard.js") {
        Endpoint::Script
    } else if same_text(path, "/static/dashboard.css") {
        Endpoint::Style
    } else {
        Endpoint::UnknownFile
    }
}

/// The endpoint that a request reaches.
pub fn endpoint(req: &ParsedReq, token: &str) -> (r: Endpoint)
    ensures
        r == endpoint_for(req.method@, req.path@, req.headers@, req.query@, token@),
{
    let method = req.method.as_str();
    let path = req.path.as_str();
    if starts_with(path, "/api/") {
        if !auth_ok(req, token) {
            Endpoint::Unauthorized
        } else if same_text(method, "GET") {
            route_get(path)
        } else if same_text(method, "POST") {
            route_post(path)
        } else {
            Endpoint::UnknownApi
        }
    } else {
        route_static(method, path)
    }
}

/// Whether an endpoint is open to everybody.
pub open spec fn is_open(e: Endpoint) -> bool {
    ||| e is Health
    ||| e is Page
    ||| e is Script
    ||| e is Style
    ||| e is UnknownFile
    ||| e is Unauthorized
}

/// Without the token a request reaches no endpoint but the open ones, whatever it is for.
pub proof fn lemma_token_wanted(
    method: Seq<char>,
    path: Seq<char>,
    headers: Seq<request::Pair>,
    query: Seq<request::Pair>,
    token: Seq<char>,
)
    requires
        !authorized(headers, query, token),
    ensures
        is_open(endpoint_for(method, path, headers, query, token)),
        text::has_prefix(path, "/api/"@) ==> endpoint_for(method, path, headers, query, token)
            == Endpoint::Unauthorized,
{
}

/// A request that carries neither a scheme in its header nor the token in its query is refused,
/// as soon as there is a token.
pub proof fn lemma_stranger_refused(headers: Seq<request::Pair>, query: Seq<request::Pair>, token: Seq<char>)
    requires
        token.len() > 0,
        request::lookup(headers, "authorization"@) is None,
        request::lookup(query, "token"@) != Some(token),
    ensures
        !authorized(headers, query, token),
{
    reveal_strlit("");
    reveal_strlit("Bearer ");
    reveal_strlit("bearer ");
}

// ---------------------------------------------------------------------------
// Answers
// ---------------------------------------------------------------------------

/// An answer that is a text.
#[derive(Debug)]
pub struct TextReply {
    pub status: u16,
    pub ctype: &'static str,
    pub body: String,
}

#[verifier::ext_equal]
pub struct TextReplyView {
    pub status: u16,
    pub ctype: Seq<char>,
    pub body: Seq<char>,
}

impl View for TextReply {
    type V = TextReplyView;

    open spec fn view(&self) -> TextReplyView {
        TextReplyView { status: self.status, ctype: self.ctype@, body: self.body@ }
    }
}

pub open spec fn json_reply(status: u16, body: Seq<char>) -> TextReplyView {
    TextReplyView { status, ctype: "application/json"@, body }
}

/// The answer to a change that has nothing to tell.
pub open spec fn done_reply() -> TextReplyView {
    TextReplyView { status: 204, ctype: "text/plain"@, body: ""@ }
}

/// The answer to a request that makes no sense.
pub open spec fn bad_request_of(msg: Seq<char>) -> TextReplyView {
    json_reply(400, "{\"error\":"@ + json::json_text(msg) + "}"@)
}

pub open spec fn not_found_reply() -> TextReplyView {
    json_reply(404, "{\"error\":\"not found\"}"@)
}

pub open spec fn unauthorized_reply() -> TextReplyView {
    json_reply(401, "{\"error\":\"unauthorized\"}"@)
}

pub fn bad_request(msg: &str) -> (r: TextReply)
    ensures
        r@ == bad_request_of(msg@),
{
    TextReply {
        status: 400,
        ctype: "application/json",
        body: cat3("{\"error\":", json_string(msg).as_str(), "}"),
    }
}

pub fn not_found() -> (r: TextReply)
    ensures
        r@ == not_found_reply(),
{
    TextReply { status: 404, ctype: "application/json", body: "{\"error\":\"not found\"}".to_string() }
}

pub fn unauthorized() -> (r: TextReply)
    ensures
        r@ == unauthorized_reply(),
{
    TextReply { status: 401, ctype: "application/json", body: "{\"error\":\"unauthorized\"}".to_string() }
}

fn done() -> (r: TextReply)
    ensures
        r@ == done_reply(),
{
    TextReply { status: 204, ctype: "text/plain", body: "".to_string() }
}

pub fn healthy() -> (r: TextReply)
    ensures
        r@ == (TextReplyView { status: 200, ctype: "text/plain"@, body: "ok\n"@ }),
{
    TextReply { status: 200, ctype: "text/plain", body: "ok\n".to_string() }
}

/// The head of an answer that is a text.
pub fn head_of(r: &TextReply) -> (head: String)
    ensures
        head@ == http::head_text(r.status, r.ctype@, text::utf8_len(r.body@)),
{
    http::response_head(r.status, r.ctype, text::byte_len(r.body.as_str()))
}

/// The head of the stream of events.
pub const STREAM_HEAD: &'static str = "HTTP/1.1 200 OK\r\ncontent-type: text/event-stream\r\ncache-control: no-store\r\nconnection: keep-alive\r\nx-accel-buffering: no\r\n\r\n";

// ---------------------------------------------------------------------------
// Changes at run time
// ---------------------------------------------------------------------------

/// Settings to change; what is missing keeps its value.
#[derive(Debug)]
pub struct RuntimePatch {
    pub under_attack: Option<bool>,
    pub uam_level: Option<u8>,
    pub challenge_mode: Option<u8>,
    pub auto_uam_enabled: Option<bool>,
    pub auto_uam_threshold: Option<u32>,
    pub challenge_threshold: Option<u32>,
    pub block_threshold: Option<u32>,
    pub max_concurrent_per_ip: Option<u32>,
    pub rpm_under_attack_bps: Option<u32>,
    pub subnet_rpm: Option<u32>,
    pub subnet_conn: Option<u32>,
    pub global_inflight_cap: Option<u32>,
    pub tarpit_score: Option<u32>,
    pub datacenter_block: Option<bool>,
    pub rules: Option<PersistedToggles>,
    pub defenses: Option<PersistedDefenses>,
    pub blocked_countries: Option<Vec<String>>,
    pub honeypot_paths: Option<Vec<String>>,
    pub turnstile_provider: Option<String>,
    pub turnstile_site_key: Option<String>,
    pub turnstile_secret: Option<String>,
}

/// The text that `str::to_lowercase` gives.
pub uninterp spec fn lowercase_of(s: Seq<char>) -> Seq<char>;

/// Whether every character is ASCII.
pub open spec fn all_ascii(s: Seq<char>) -> bool {
    forall|i: int| 0 <= i < s.len() ==> (#[trigger] s[i] as u32) < 128
}

/// `str::to_lowercase`. The contract names the text, and says what it is where every character
/// is ASCII.
#[verifier::external_body]
fn lowercase(s: &str) -> (r: String)
    ensures
        r@ == lowercase_of(s@),
        all_ascii(s@) ==> r@ == text::lower_text(s@),
{
    s.to_lowercase()
}

pub open spec fn patched_rules(p: Option<PersistedToggles>, v: runtime::RuleToggles) -> runtime::RuleToggles {
    match p {
        Some(t) => runtime::merged_rules(t, v),
        None => v,
    }
}

pub open spec fn patched_defenses(p: Option<PersistedDefenses>, v: runtime::DefenseToggles) -> runtime::DefenseToggles {
    match p {
        Some(t) => runtime::merged_defenses(t, v),
        None => v,
    }
}

/// The settings after a change. An empty secret of the captcha leaves the old one.
pub open spec fn patched(v: RuntimeView, p: RuntimePatch) -> RuntimeView {
    RuntimeView {
        under_attack: runtime::or_bool(p.under_attack, v.under_attack),
        uam_level: runtime::or_level(p.uam_level, v.uam_level, 4),
        challenge_mode: runtime::or_level(p.challenge_mode, v.challenge_mode, 2),
        auto_uam_enabled: runtime::or_bool(p.auto_uam_enabled, v.auto_uam_enabled),
        auto_uam_threshold: runtime::or_u32(p.auto_uam_threshold, v.auto_uam_threshold),
        challenge_threshold: runtime::or_u32(p.challenge_threshold, v.challenge_threshold),
        block_threshold: runtime::or_u32(p.block_threshold, v.block_threshold),
        max_concurrent_per_ip: runtime::or_u32(p.max_concurrent_per_ip, v.max_concurrent_per_ip),
        rpm_under_attack_bps: runtime::or_u32(p.rpm_under_attack_bps, v.rpm_under_attack_bps),
        subnet_rpm: runtime::or_u32(p.subnet_rpm, v.subnet_rpm),
        subnet_conn: runtime::or_u32(p.subnet_conn, v.subnet_conn),
        global_inflight_cap: runtime::or_u32(p.global_inflight_cap, v.global_inflight_cap),
        tarpit_score: runtime::or_u32(p.tarpit_score, v.tarpit_score),
        datacenter_block: runtime::or_bool(p.datacenter_block, v.datacenter_block),
        rules: patched_rules(p.rules, v.rules),
        defenses: patched_defenses(p.defenses, v.defenses),
        blocked_countries: or_countries(p.blocked_countries, v.blocked_countries),
        turnstile_provider: or_lowercase(p.turnstile_provider, v.turnstile_provider),
        turnstile_site_key: runtime::or_text(p.turnstile_site_key.deep_view(), v.turnstile_site_key),
        turnstile_secret: or_nonempty(p.turnstile_secret, v.turnstile_secret),
        unsaved: true,
        ..v
    }
}

fn patch_defenses(p: &Option<PersistedDefenses>, v: &runtime::DefenseToggles) -> (r: runtime::DefenseToggles)
    ensures
        r == patched_defenses(*p, *v),
{
    match p {
        Some(t) => runtime::merge_defenses(t, v),
        None => *v,
    }
}

/// The numbers and switches of the settings after a change.
pub open spec fn patched_numbers(v: RuntimeView, p: RuntimePatch) -> RuntimeView {
    RuntimeView {
        blocked_countries: v.blocked_countries,
        turnstile_provider: v.turnstile_provider,
        turnstile_site_key: v.turnstile_site_key,
        turnstile_secret: v.turnstile_secret,
        unsaved: v.unsaved,
        ..patched(v, p)
    }
}

fn patch_numbers(rt: &mut Runtime, p: &RuntimePatch)
    requires
        old(rt).wf(),
    ensures
        final(rt).wf(),
        final(rt)@ == patched_numbers(old(rt)@, *p),
{
    rt.under_attack = pick_bool(p.under_attack, rt.under_attack);
    rt.uam_level = pick_level(p.uam_level, rt.uam_level, 4);
    rt.challenge_mode = pick_level(p.challenge_mode, rt.challenge_mode, 2);
    rt.auto_uam_enabled = pick_bool(p.auto_uam_enabled, rt.auto_uam_enabled);
    rt.auto_uam_threshold = pick_u32(p.auto_uam_threshold, rt.auto_uam_threshold);
    rt.challenge_threshold = pick_u32(p.challenge_threshold, rt.challenge_threshold);
    rt.block_threshold = pick_u32(p.block_threshold, rt.block_threshold);
    rt.max_concurrent_per_ip = pick_u32(p.max_concurrent_per_ip, rt.max_concurrent_per_ip);
    rt.rpm_under_attack_bps = pick_u32(p.rpm_under_attack_bps, rt.rpm_under_attack_bps);
    rt.subnet_rpm = pick_u32(p.subnet_rpm, rt.subnet_rpm);
    rt.subnet_conn = pick_u32(p.subnet_conn, rt.subnet_conn);
    rt.global_inflight_cap = pick_u32(p.global_inflight_cap, rt.global_inflight_cap);
    rt.tarpit_score = pick_u32(p.tarpit_score, rt.tarpit_score);
    rt.datacenter_block = pick_bool(p.datacenter_block, rt.datacenter_block);
    rt.rules = patch_rules(&p.rules, &rt.rules);
    rt.defenses = patch_defenses(&p.defenses, &rt.defenses);
    assert(rt@ == patched_numbers(old(rt)@, *p));
}

fn patch_rules(p: &Option<PersistedToggles>, v: &runtime::RuleToggles) -> (r: runtime::RuleToggles)
    ensures
        r == patched_rules(*p, *v),
{
    match p {
        Some(t) => merge_rules(t, v),
        None => *v,
    }
}

pub open spec fn or_lowercase(o: Option<String>, d: Seq<char>) -> Seq<char> {
    match o {
        Some(s) => lowercase_of(s@),
        None => d,
    }
}

pub open spec fn or_nonempty(o: Option<String>, d: Seq<char>) -> Seq<char> {
    match o {
        Some(s) => if s@.len() > 0 {
            s@
        } else {
            d
        },
        None => d,
    }
}

pub open spec fn or_countries(o: Option<Vec<String>>, d: Seq<Seq<char>>) -> Seq<Seq<char>> {
    match o {
        Some(list) => runtime::upper_list(list.deep_view()),
        None => d,
    }
}

fn pick_lowercase(o: &Option<String>, d: &String) -> (r: String)
    ensures
        r@ == or_lowercase(*o, d@),
{
    match o {
        Some(s) => lowercase(s.as_str()),
        None => d.clone(),
    }
}

fn pick_nonempty(o: &Option<String>, d: &String) -> (r: String)
    ensures
        r@ == or_nonempty(*o, d@),
{
    if let Some(s) = o {
        proof {
            reveal_strlit("");
            assert(s@.len() == 0 ==> s@ =~= ""@);
        }
        if !same_text(s.as_str(), "") {
            return s.clone();
        }
    }
    d.clone()
}

fn pick_countries(o: &Option<Vec<String>>, d: &Vec<String>) -> (r: Vec<String>)
    ensures
        r.deep_view() == or_countries(*o, d.deep_view()),
{
    match o {
        Some(list) => runtime::to_upper_list(list),
        None => text::copy_list(d),
    }
}

/// Changes the settings.
pub fn patch_runtime(rt: &mut Runtime, p: &RuntimePatch)
    requires
        old(rt).wf(),
    ensures
        final(rt).wf(),
        final(rt)@ == patched(old(rt)@, *p),
{
    patch_numbers(rt, p);
    rt.turnstile_provider = pick_lowercase(&p.turnstile_provider, &rt.turnstile_provider);
    rt.turnstile_site_key = runtime::pick_text(&p.turnstile_site_key, &rt.turnstile_site_key);
    rt.turnstile_secret = pick_nonempty(&p.turnstile_secret, &rt.turnstile_secret);
    rt.blocked_countries = pick_countries(&p.blocked_countries, &rt.blocked_countries);
    rt.unsaved = true;
    assert(rt@ == patched(old(rt)@, *p));
}

/// A change that names nothing changes nothing.
pub proof fn lemma_empty_patch(v: RuntimeView, p: RuntimePatch)
    requires
        p == (RuntimePatch {
            under_attack: None,
            uam_level: None,
            challenge_mode: None,
            auto_uam_enabled: None,
            auto_uam_threshold: None,
            challenge_threshold: None,
            block_threshold: None,
            max_concurrent_per_ip: None,
            rpm_under_attack_bps: None,
            subnet_rpm: None,
            subnet_conn: None,
            global_inflight_cap: None,
            tarpit_score: None,
            datacenter_block: None,
            rules: None,
            defenses: None,
            blocked_countries: None,
            honeypot_paths: None,
            turnstile_provider: None,
            turnstile_site_key: None,
            turnstile_secret: None,
        }),
    ensures
        patched(v, p) == (RuntimeView { unsaved: true, ..v }),
{
}

/// Whatever is changed, the level stays within its five steps and the mode within its three, and
/// neither the lists of networks nor the token is touched.
pub proof fn lemma_patch_bounds(v: RuntimeView, p: RuntimePatch)
    requires
        v.uam_level <= 4,
        v.challenge_mode <= 2,
    ensures
        patched(v, p).uam_level <= 4,
        patched(v, p).challenge_mode <= 2,
        patched(v, p).allow == v.allow,
        patched(v, p).deny == v.deny,
        patched(v, p).auth_token == v.auth_token,
{
}

/// The state after a change of the settings, which can hold new traps as well.
pub open spec fn engine_patched(v: EngineView, p: RuntimePatch) -> EngineView {
    EngineView {
        rt: patched(v.rt, p),
        traps: match p.honeypot_paths {
            Some(paths) => paths.deep_view(),
            None => v.traps,
        },
        ..v
    }
}

/// Changes the settings, and gives the new ones as they are shown everywhere: the traps, which the
/// settings leave open, are filled in from the store that holds them.
pub fn apply_patch(engine: &mut Engine, p: &RuntimePatch) -> (r: PersistedRuntime)
    requires
        old(engine).wf(),
    ensures
        final(engine).wf(),
        final(engine)@ == engine_patched(old(engine)@, *p),
        final(engine).metrics == old(engine).metrics,
        engine::kept_parts(*old(engine), *final(engine)),
        r@ == engine::shown_form(engine_patched(old(engine)@, *p)),
{
    patch_runtime(&mut engine.runtime, p);
    if let Some(paths) = &p.honeypot_paths {
        engine.honeypots.replace(text::copy_list(paths));
    }
    assert(engine@ =~= engine_patched(old(engine)@, *p));
    engine.shown()
}

// ---------------------------------------------------------------------------
// The endpoints
// ---------------------------------------------------------------------------

/// What the dashboard shows of the whole.
pub struct StateReport {
    pub metrics: Snapshot,
    pub runtime: PersistedRuntime,
    pub in_flight_total: i64,
    pub subnets_tracked: usize,
}

/// Whether a report shows the engine as it is: with the traps in the place that the stored
/// settings have for them.
pub open spec fn reports(r: StateReport, e: Engine) -> bool {
    &&& metrics::summarizes(r.metrics, e.metrics)
    &&& r.runtime@ == engine::shown_form(e@)
    &&& r.in_flight_total == connections::sum_of(e.conns@)
    &&& r.subnets_tracked == e.subnets@.counters.dom().len()
}

pub fn report(engine: &Engine) -> (r: StateReport)
    requires
        engine.wf(),
    ensures
        reports(r, *engine),
{
    StateReport {
        metrics: engine.metrics.snapshot(),
        runtime: engine.shown(),
        in_flight_total: engine.conns.total(),
        subnets_tracked: engine.subnets.tracked_networks(),
    }
}

/// A number of the query, or its default, kept at `max`.
pub open spec fn bounded_number(query: Seq<request::Pair>, name: Seq<char>, default: nat, max: nat) -> nat {
    let n = match number_in(query, name, usize::MAX as nat) {
        Some(n) => n,
        None => default,
    };
    if n < max {
        n
    } else {
        max
    }
}

fn query_bounded(q: &TextMap, name: &str, default: usize, max: usize) -> (r: usize)
    ensures
        r == bounded_number(q@, name@, default as nat, max as nat),
{
    let n: usize = match query_number(q, name, usize::MAX as u64) {
        Some(n) => n as usize,
        None => default,
    };
    if n < max {
        n
    } else {
        max
    }
}

/// The events that are asked for: those after a time, or the newest.
pub open spec fn events_for(log: Seq<events::EventView>, query: Seq<request::Pair>) -> Seq<events::EventView> {
    let since = match number_in(query, "since"@, u64::MAX as nat) {
        Some(n) => n,
        None => 0,
    };
    let limit = bounded_number(query, "limit"@, 100, 500);
    if since > 0 {
        events::after_time(log, since as u64, limit)
    } else {
        events::newest(log, limit)
    }
}

pub fn list_events(engine: &Engine, q: &TextMap) -> (r: Vec<Event>)
    ensures
        events::event_views(r@) == events_for(engine@.log.events, q@),
{
    let since: u64 = match query_number(q, "since", u64::MAX) {
        Some(n) => n,
        None => 0,
    };
    let limit: usize = query_bounded(q, "limit", 100, 500);
    if since > 0 {
        engine.events.since(since, limit)
    } else {
        engine.events.recent(limit)
    }
}

/// The level that is asked for: the highest in a panic, else the one that the query gives.
pub open spec fn level_asked(query: Seq<request::Pair>) -> u8 {
    if request::lookup(query, "panic"@) == Some("true"@) {
        4
    } else {
        match number_in(query, "level"@, 255) {
            Some(n) => if n < 4 {
                n as u8
            } else {
                4
            },
            None => 0,
        }
    }
}

pub fn set_uam(rt: &mut Runtime, q: &TextMap) -> (r: TextReply)
    requires
        old(rt).wf(),
    ensures
        final(rt).wf(),
        final(rt)@ == (RuntimeView { uam_level: level_asked(q@), unsaved: true, ..old(rt)@ }),
        r@ == json_reply(200, "{\"uam_level\":"@ + num::dec_text(level_asked(q@) as nat) + "}"@),
{
    let panic = match q.get("panic") {
        Some(v) => same_text(v.as_str(), "true"),
        None => false,
    };
    let level: u8 = if panic {
        4
    } else {
        match query_number(q, "level", 255) {
            Some(n) => if n < 4 {
                n as u8
            } else {
                4
            },
            None => 0,
        }
    };
    rt.uam_level = level;
    rt.unsaved = true;
    TextReply {
        status: 200,
        ctype: "application/json",
        body: cat3("{\"uam_level\":", dec(level as u64).as_str(), "}"),
    }
}

/// Whether the under-attack mode is asked for.
pub open spec fn attack_asked(query: Seq<request::Pair>) -> bool {
    request::lookup(query, "on"@) == Some("true"@)
}

pub open spec fn bool_text(b: bool) -> Seq<char> {
    if b {
        "true"@
    } else {
        "false"@
    }
}

pub fn set_under_attack(rt: &mut Runtime, q: &TextMap) -> (r: TextReply)
    requires
        old(rt).wf(),
    ensures
        final(rt).wf(),
        final(rt)@ == (RuntimeView { under_attack: attack_asked(q@), unsaved: true, ..old(rt)@ }),
        r@ == json_reply(200, "{\"under_attack\":"@ + bool_text(attack_asked(q@)) + "}"@),
{
    let on = match q.get("on") {
        Some(v) => same_text(v.as_str(), "true"),
        None => false,
    };
    rt.under_attack = on;
    rt.unsaved = true;
    let shown = if on {
        "true"
    } else {
        "false"
    };
    TextReply { status: 200, ctype: "application/json", body: cat3("{\"under_attack\":", shown, "}") }
}

/// The settings after a network was put on a list or taken off one.
pub open spec fn list_changed(v: RuntimeView, e: Endpoint, n: net::IpNet) -> RuntimeView {
    match e {
        Endpoint::Allow => RuntimeView { allow: runtime::with_net(v.allow, n), unsaved: true, ..v },
        Endpoint::Deny => RuntimeView { deny: runtime::with_net(v.deny, n), unsaved: true, ..v },
        Endpoint::Unallow => RuntimeView { allow: runtime::without_net(v.allow, n), unsaved: true, ..v },
        Endpoint::Undeny => RuntimeView { deny: runtime::without_net(v.deny, n), unsaved: true, ..v },
        _ => v,
    }
}

/// The settings after a request to change a list.
pub open spec fn after_list_change(v: RuntimeView, e: Endpoint, query: Seq<request::Pair>) -> RuntimeView {
    match request::lookup(query, "cidr"@) {
        Some(c) => match net::parsed_net(c) {
            Some(n) => list_changed(v, e, n),
            None => v,
        },
        None => v,
    }
}

/// The answer to a request to change a list.
pub open spec fn list_reply(query: Seq<request::Pair>) -> TextReplyView {
    match request::lookup(query, "cidr"@) {
        Some(c) => match net::parsed_net(c) {
            Some(_) => done_reply(),
            None => bad_request_of(c + ": invalid IP address syntax"@),
        },
        None => bad_request_of("missing cidr"@),
    }
}

pub open spec fn is_list_change(e: Endpoint) -> bool {
    e is Allow || e is Deny || e is Unallow || e is Undeny
}

/// Changes a list of networks.
pub fn with_cidr(rt: &mut Runtime, e: Endpoint, q: &TextMap) -> (r: TextReply)
    requires
        old(rt).wf(),
        is_list_change(e),
    ensures
        final(rt).wf(),
        final(rt)@ == after_list_change(old(rt)@, e, q@),
        r@ == list_reply(q@),
{
    let cidr = match q.get("cidr") {
        Some(c) => c.as_str(),
        None => {
            return bad_request("missing cidr");
        },
    };
    let done_or_not = match e {
        Endpoint::Allow => rt.add_allow(cidr),
        Endpoint::Deny => rt.add_deny(cidr),
        Endpoint::Unallow => rt.remove_allow(cidr),
        _ => rt.remove_deny(cidr),
    };
    match done_or_not {
        Ok(_) => done(),
        Err(err) => bad_request(err.message.as_str()),
    }
}

/// The address whose ban is to be lifted.
pub open spec fn unban_asked(query: Seq<request::Pair>) -> Option<IpAddr> {
    match request::lookup(query, "ip"@) {
        Some(s) => net::parsed_ip(s),
        None => None,
    }
}

/// What an endpoint under `/api/` answers with.
pub enum ApiReply {
    Text(TextReply),
    State(StateReport),
    Events(Vec<Event>),
    GoodBots(Vec<VerifyEntry>),
    Banned(Vec<(IpAddr, u64)>),
    /// The change of the settings that the body holds is to be read and applied.
    WantsPatch,
}

/// The state after a request to an endpoint. Reading changes nothing, and a change of the
/// settings is made when its body has been read.
pub open spec fn after_api(v: EngineView, e: Endpoint, query: Seq<request::Pair>) -> EngineView {
    match e {
        Endpoint::Uam => EngineView {
            rt: RuntimeView { uam_level: level_asked(query), unsaved: true, ..v.rt },
            ..v
        },
        Endpoint::UnderAttack => EngineView {
            rt: RuntimeView { under_attack: attack_asked(query), unsaved: true, ..v.rt },
            ..v
        },
        Endpoint::Allow | Endpoint::Deny | Endpoint::Unallow | Endpoint::Undeny => EngineView {
            rt: after_list_change(v.rt, e, query),
            ..v
        },
        Endpoint::Unban => match unban_asked(query) {
            Some(ip) => EngineView { rep: reputation::after_unban(v.rep, ip), ..v },
            None => v,
        },
        _ => v,
    }
}

/// Whether `r` is what an endpoint answers with at `now`.
pub open spec fn answers(r: ApiReply, before: Engine, e: Endpoint, query: Seq<request::Pair>, now: u64) -> bool {
    match e {
        Endpoint::State => r matches ApiReply::State(s) && reports(s, before),
        Endpoint::Events => r matches ApiReply::Events(list) && events::event_views(list@) == events_for(
            before@.log.events,
            query,
        ),
        Endpoint::GoodBots => r matches ApiReply::GoodBots(list) && exists|ranked: Seq<(crate::table::Key, u64)>|
         #[trigger]
            goodbot::ranks(before@.bots.cache, ranked, now) && goodbot::entry_views(list@) == goodbot::shown_list(
                before@.bots.cache,
                ranked,
                now,
            ),
        Endpoint::Banned => r matches ApiReply::Banned(list) && exists|bans: Seq<reputation::PersistedBan>| #[trigger]
            reputation::lists_bans(before@.rep.state, bans, now) && list@ == reputation::remaining(bans, now),
        Endpoint::Patch => r is WantsPatch,
        Endpoint::Uam => r matches ApiReply::Text(t) && t@ == json_reply(
            200,
            "{\"uam_level\":"@ + num::dec_text(level_asked(query) as nat) + "}"@,
        ),
        Endpoint::UnderAttack => r matches ApiReply::Text(t) && t@ == json_reply(
            200,
            "{\"under_attack\":"@ + bool_text(attack_asked(query)) + "}"@,
        ),
        Endpoint::Allow | Endpoint::Deny | Endpoint::Unallow | Endpoint::Undeny => r matches ApiReply::Text(t) && t@
            == list_reply(query),
        Endpoint::Unban => r matches ApiReply::Text(t) && t@ == match unban_asked(query) {
            Some(_) => done_reply(),
            None => bad_request_of("missing ip"@),
        },
        Endpoint::Unauthorized => r matches ApiReply::Text(t) && t@ == unauthorized_reply(),
        _ => r matches ApiReply::Text(t) && t@ == not_found_reply(),
    }
}

fn change_runtime(engine: &mut Engine, e: Endpoint, q: &TextMap) -> (r: TextReply)
    requires
        old(engine).wf(),
        e is Uam || e is UnderAttack || is_list_change(e),
    ensures
        final(engine).wf(),
        final(engine)@ == after_api(old(engine)@, e, q@),
        final(engine).metrics == old(engine).metrics,
        engine::kept_parts(*old(engine), *final(engine)),
        forall|now: u64| answers(ApiReply::Text(r), *old(engine), e, q@, now),
{
    let r = match e {
        Endpoint::Uam => set_uam(&mut engine.runtime, q),
        Endpoint::UnderAttack => set_under_attack(&mut engine.runtime, q),
        _ => with_cidr(&mut engine.runtime, e, q),
    };
    assert(engine@ =~= after_api(old(engine)@, e, q@));
    r
}

/// Answers a request to an endpoint under `/api/` at a given time.
pub fn route_api_at(engine: &mut Engine, e: Endpoint, q: &TextMap, now: u64) -> (r: ApiReply)
    requires
        old(engine).wf(),
    ensures
        final(engine).wf(),
        final(engine)@ == after_api(old(engine)@, e, q@),
        final(engine).metrics == old(engine).metrics,
        engine::kept_parts(*old(engine), *final(engine)),
        answers(r, *old(engine), e, q@, now),
{
    match e {
        Endpoint::State => ApiReply::State(report(engine)),
        Endpoint::Events => ApiReply::Events(list_events(engine, q)),
        Endpoint::GoodBots => ApiReply::GoodBots(engine.goodbot.snapshot_at(now)),
        Endpoint::Banned => ApiReply::Banned(engine.reputations.banned_at(now)),
        Endpoint::Patch => ApiReply::WantsPatch,
        Endpoint::Uam | Endpoint::UnderAttack | Endpoint::Allow | Endpoint::Deny | Endpoint::Unallow | Endpoint::Undeny =>
            ApiReply::Text(change_runtime(engine, e, q)),
        Endpoint::Unban => {
            let asked = match q.get("ip") {
                Some(s) => parse_ip(s.as_str()),
                None => None,
            };
            match asked {
                Some(ip) => {
                    engine.reputations.unban(ip);
                    assert(engine@ =~= after_api(old(engine)@, e, q@));
                    ApiReply::Text(done())
                },
                None => ApiReply::Text(bad_request("missing ip")),
            }
        },
        Endpoint::Unauthorized => ApiReply::Text(unauthorized()),
        _ => ApiReply::Text(not_found()),
    }
}

/// Answers a request to an endpoint under `/api/`.
pub fn route_api(engine: &mut Engine, e: Endpoint, q: &TextMap) -> (r: ApiReply)
    requires
        old(engine).wf(),
    ensures
        final(engine).wf(),
        final(engine)@ == after_api(old(engine)@, e, q@),
        final(engine).metrics == old(engine).metrics,
        engine::kept_parts(*old(engine), *final(engine)),
        exists|now: u64| #[trigger] answers(r, *old(engine), e, q@, now),
{
    let now: u64 = now_secs();
    let r = route_api_at(engine, e, q, now);
    assert(answers(r, *old(engine), e, q@, now));
    r
}

/// Reading changes nothing.
pub proof fn lemma_reads_change_nothing(v: EngineView, path: Seq<char>, query: Seq<request::Pair>)
    ensures
        after_api(v, api_endpoint("GET"@, path), query) == v,
{
}

/// A network that was put on the deny list is on it, and is gone again when it was taken off.
pub proof fn lemma_deny_undeny(v: RuntimeView, n: net::IpNet)
    ensures
        list_changed(v, Endpoint::Deny, n).deny.contains(n),
        !list_changed(list_changed(v, Endpoint::Deny, n), Endpoint::Undeny, n).deny.contains(n),
        list_changed(v, Endpoint::Allow, n).allow.contains(n),
        !list_changed(list_changed(v, Endpoint::Allow, n), Endpoint::Unallow, n).allow.contains(n),
{
    runtime::lemma_net_lists(v.deny, n, n);
    runtime::lemma_net_lists(runtime::with_net(v.deny, n), n, n);
    runtime::lemma_net_lists(v.allow, n, n);
    runtime::lemma_net_lists(runtime::with_net(v.allow, n), n, n);
}

// ---------------------------------------------------------------------------
// Stored events
// ---------------------------------------------------------------------------

/// A question to the event store.
#[derive(Debug, Clone, Copy, PartialEq, Eq, Structural)]
pub struct Timeframe {
    pub since: u64,
    pub until: u64,
    pub limit: usize,
}

/// How many stored events a request asks for.
pub open spec fn frame_limit(query: Seq<request::Pair>) -> nat {
    bounded_number(query, "limit"@, 500, 5000)
}

/// The question that a request asks.
pub fn timeframe_at(q: &TextMap, now_ms: u64) -> (r: Timeframe)
    ensures
        (r.since as nat, r.until as nat) == range_of(q@, now_ms),
        r.since <= r.until,
        r.limit == frame_limit(q@),
{
    let (since, until) = parse_range(q, now_ms);
    proof {
        lemma_range_ordered(q@, now_ms);
    }
    Timeframe { since, until, limit: query_bounded(q, "limit", 500, 5000) }
}

/// The events of a time frame: those that the store has found, or where there is none or it
/// failed the newest of the log.
pub fn range_events(engine: &Engine, found: Option<Vec<Event>>, limit: usize) -> (r: Vec<Event>)
    ensures
        match found {
            Some(list) => r == list,
            None => events::event_views(r@) == events::newest(engine@.log.events, limit as nat),
        },
{
    match found {
        Some(list) => list,
        None => engine.events.recent(limit),
    }
}

// ---------------------------------------------------------------------------
// The stream
// ---------------------------------------------------------------------------

/// The events in one message of the stream, at most.
pub const STREAM_MAX: usize = 200;

/// How far a stream is that had reached `last_ts` and then sent some events.
pub open spec fn reached(sent: Seq<events::EventView>, last_ts: u64) -> u64 {
    if sent.len() > 0 {
        sent.last().ts_ms
    } else {
        last_ts
    }
}

/// The next events of a stream that has reached `last_ts`, and how far it is then.
pub fn stream_step(engine: &Engine, last_ts: u64) -> (r: (Vec<Event>, u64))
    ensures
        events::event_views(r.0@) == events::after_time(engine@.log.events, last_ts, STREAM_MAX as nat),
        r.1 == reached(events::event_views(r.0@), last_ts),
{
    let list = engine.events.since(last_ts, STREAM_MAX);
    let n: usize = list.len();
    let reached: u64 = if n > 0 {
        list[n - 1].ts_ms
    } else {
        last_ts
    };
    (list, reached)
}

// ---------------------------------------------------------------------------
// The watchdog
// ---------------------------------------------------------------------------

/// Moves the under-attack level with the rate of blocks.
#[derive(Debug, Clone, Copy, PartialEq, Eq, Structural)]
pub struct AutoUam {
    /// The number of blocks at the last look.
    pub prev_blocks: u64,
    /// When the level was last moved.
    pub last_change: u64,
}

/// The seconds between two looks.
pub const LOOK_SECS: u64 = 5;

/// The seconds between two changes of the level, at least.
pub const HOLD_SECS: u64 = 30;

/// The blocks in a second since the last look.
pub open spec fn block_rate(w: AutoUam, blocked: u64) -> u32 {
    (crate::subnet::since(blocked, w.prev_blocks) / 5) as u32
}

/// The level that a rate leads to: one step up from the threshold on, one step down at a quarter
/// of it.
pub open spec fn next_level(level: u8, rate: u32, threshold: u32) -> u8 {
    if rate >= threshold && level < 4 {
        (level + 1) as u8
    } else if rate <= threshold / 4 && level > 0 {
        (level - 1) as u8
    } else {
        level
    }
}

/// Whether the level may be moved at `now`.
pub open spec fn may_move(w: AutoUam, rt: RuntimeView, now: u64) -> bool {
    rt.auto_uam_enabled && crate::subnet::since(now, w.last_change) >= HOLD_SECS
}

/// The level after a look at `now`.
pub open spec fn level_after(w: AutoUam, rt: RuntimeView, blocked: u64, now: u64) -> u8 {
    if may_move(w, rt, now) {
        next_level(rt.uam_level, block_rate(w, blocked), rt.auto_uam_threshold)
    } else {
        rt.uam_level
    }
}

/// The watchdog after a look at `now`.
pub open spec fn after_look(w: AutoUam, rt: RuntimeView, blocked: u64, now: u64) -> AutoUam {
    AutoUam {
        prev_blocks: blocked,
        last_change: if level_after(w, rt, blocked, now) != rt.uam_level {
            now
        } else {
            w.last_change
        },
    }
}

impl AutoUam {
    pub fn new(blocked: u64) -> (r: AutoUam)
        ensures
            r == (AutoUam { prev_blocks: blocked, last_change: 0 }),
    {
        AutoUam { prev_blocks: blocked, last_change: 0 }
    }

    /// Looks at the number of blocks at a given time, and moves the level where it has to be.
    /// Whether it was moved is returned.
    pub fn look_at(&mut self, rt: &mut Runtime, blocked: u64, now: u64) -> (r: bool)
        requires
            old(rt).wf(),
        ensures
            final(rt).wf(),
            r == (level_after(*old(self), old(rt)@, blocked, now) != old(rt)@.uam_level),
            final(rt)@ == (RuntimeView {
                uam_level: level_after(*old(self), old(rt)@, blocked, now),
                unsaved: old(rt)@.unsaved || r,
                ..old(rt)@
            }),
            *final(self) == after_look(*old(self), old(rt)@, blocked, now),
    {
        let delta: u64 = if blocked > self.prev_blocks {
            blocked - self.prev_blocks
        } else {
            0
        };
        let rate: u32 = (delta / LOOK_SECS) as u32;
        self.prev_blocks = blocked;
        if !rt.auto_uam_enabled {
            return false;
        }
        let held: u64 = if now > self.last_change {
            now - self.last_change
        } else {
            0
        };
        if held < HOLD_SECS {
            return false;
        }
        let cur: u8 = rt.uam_level;
        let threshold: u32 = rt.auto_uam_threshold;
        let next: u8 = if rate >= threshold && cur < 4 {
            cur + 1
        } else if rate <= threshold / 4 && cur > 0 {
            cur - 1
        } else {
            cur
        };
        if next == cur {
            return false;
        }
        rt.uam_level = next;
        rt.unsaved = true;
        self.last_change = now;
        true
    }
}

/// A look moves the level by one step at most, keeps it within its bounds, and leaves it alone
/// where the watchdog is off or the last change is less than half a minute ago.
pub proof fn lemma_level_steps(w: AutoUam, rt: RuntimeView, blocked: u64, now: u64)
    requires
        rt.uam_level <= 4,
    ensures
        level_after(w, rt, blocked, now) <= 4,
        level_after(w, rt, blocked, now) <= rt.uam_level + 1,
        rt.uam_level <= level_after(w, rt, blocked, now) + 1,
        !rt.auto_uam_enabled ==> level_after(w, rt, blocked, now) == rt.uam_level,
        w.last_change <= now < w.last_change + HOLD_SECS ==> level_after(w, rt, blocked, now) == rt.uam_level,
{
}

/// The age from which a counter of requests is dropped.
pub const COUNTER_AGE_SECS: u64 = 120;

/// The state after a sweep.
pub open spec fn swept(v: EngineView, now: u64) -> EngineView {
    EngineView {
        conns: crate::table::kept(v.conns, |n: i64| n > 0),
        rate: ratelimit::RateView {
            counters: ratelimit::younger_part(v.rate.counters, now, COUNTER_AGE_SECS),
            ..v.rate
        },
        rep: RepView { state: reputation::worth_part(v.rep.state, now, v.rep.window), ..v.rep },
        ..v
    }
}

/// Drops, at a given time, what is no longer needed, so that nothing grows without bound.
pub fn sweep_at(engine: &mut Engine, now: u64)
    requires
        old(engine).wf(),
    ensures
        final(engine).wf(),
        final(engine)@ == swept(old(engine)@, now),
        final(engine).metrics == old(engine).metrics,
        engine::kept_parts(*old(engine), *final(engine)),
        connections::sum_of(final(engine).conns@) == connections::sum_of(old(engine).conns@),
{
    engine.conns.gc();
    engine.rate_limiter.gc_at(now, COUNTER_AGE_SECS);
    engine.reputations.gc_at(now);
    assert(engine@ =~= swept(old(engine)@, now));
}

pub fn sweep(engine: &mut Engine)
    requires
        old(engine).wf(),
    ensures
        final(engine).wf(),
        exists|now: u64| final(engine)@ == #[trigger] swept(old(engine)@, now),
        final(engine).metrics == old(engine).metrics,
        engine::kept_parts(*old(engine), *final(engine)),
        connections::sum_of(final(engine).conns@) == connections::sum_of(old(engine).conns@),
{
    sweep_at(engine, now_secs())
}

// ---------------------------------------------------------------------------
// Laws
// ---------------------------------------------------------------------------

/// A part of the query with an equals sign gives its name the value behind it, one without gives an
/// empty value; the last value of a name wins, and the others stay.
pub proof fn lemma_query_parts(parts: Seq<Seq<char>>, name: Seq<char>, value: Seq<char>, other: Seq<char>)
    requires
        name.len() > 0,
        !name.contains('='),
        other != decode::decoded_text(name),
    ensures
        ({
            let full = query_of(parts.push(name + seq!['='] + value));
            let bare = query_of(parts.push(name));
            &&& request::lookup(full, decode::decoded_text(name)) == Some(decode::decoded_text(value))
            &&& request::lookup(full, other) == request::lookup(query_of(parts), other)
            &&& request::lookup(bare, decode::decoded_text(name)) == Some(""@)
            &&& request::lookup(bare, other) == request::lookup(query_of(parts), other)
            &&& query_of(parts.push(seq![])) == query_of(parts)
        }),
{
    let part = name + seq!['='] + value;
    assert(parts.push(part).drop_last() =~= parts);
    assert(parts.push(name).drop_last() =~= parts);
    assert(parts.push(seq![]).drop_last() =~= parts);
    assert forall|j: int| 0 <= j < name.len() implies name[j] != '=' by {}
    assert forall|j: int| 0 <= j < name.len() implies part[j] != '=' by {
        assert(part[j] == name[j]);
    }
    text::lemma_first_at(name, '=', name.len() as int);
    text::lemma_first_at(part, '=', name.len() as int);
    assert(part.take(name.len() as int) =~= name);
    assert(part.skip(name.len() as int + 1) =~= value);
    request::lemma_put(query_of(parts), decode::decoded_text(name), decode::decoded_text(value));
    request::lemma_put(query_of(parts), decode::decoded_text(name), ""@);
}

/// A line of the head with a colon gives its name, in lower case, the value behind it, both without
/// the blanks around them; the last value of a name wins, and a line without a colon says nothing.
pub proof fn lemma_header_lines(lines: Seq<Seq<char>>, name: Seq<char>, value: Seq<char>, other: Seq<char>)
    requires
        !name.contains(':'),
        other != text::lower_text(text::trimmed(name)),
    ensures
        ({
            let after = headers_in(lines.push(name + seq![':'] + value));
            &&& request::lookup(after, text::lower_text(text::trimmed(name))) == Some(text::trimmed(value))
            &&& request::lookup(after, other) == request::lookup(headers_in(lines), other)
            &&& headers_in(lines.push(name)) == headers_in(lines)
        }),
{
    let line = name + seq![':'] + value;
    assert(lines.push(line).drop_last() =~= lines);
    assert(lines.push(name).drop_last() =~= lines);
    assert forall|j: int| 0 <= j < name.len() implies name[j] != ':' by {}
    assert forall|j: int| 0 <= j < name.len() implies line[j] != ':' by {
        assert(line[j] == name[j]);
    }
    text::lemma_first_at(name, ':', name.len() as int);
    text::lemma_first_at(line, ':', name.len() as int);
    assert(line.take(name.len() as int) =~= name);
    assert(line.skip(name.len() as int + 1) =~= value);
    request::lemma_put(headers_in(lines), text::lower_text(text::trimmed(name)), text::trimmed(value));
}

/// No more than a mebibyte of a body is read; up to that, what was announced.
pub proof fn lemma_body_bounded(headers: Seq<request::Pair>)
    ensures
        announced(headers) <= 1_048_576,
        request::lookup(headers, "content-length"@) is None ==> announced(headers) == 0,
        ({
            let n = num::parse_up_to(request::lookup(headers, "content-length"@)->0, usize::MAX as nat);
            request::lookup(headers, "content-length"@) is Some && n is Some && n->0 <= 1_048_576 ==> announced(headers)
                == n->0
        }),
{
}

/// A target is its path, and behind the first question mark its query.
pub proof fn lemma_target_parts(path: Seq<char>, query: Seq<char>)
    requires
        !path.contains('?'),
    ensures
        path_in(path) == path,
        query_in(path).len() == 0,
        path_in(path + seq!['?'] + query) == path,
        query_in(path + seq!['?'] + query) == query,
{
    reveal_strlit("");
    let t = path + seq!['?'] + query;
    assert forall|j: int| 0 <= j < path.len() implies path[j] != '?' by {}
    assert forall|j: int| 0 <= j < path.len() implies t[j] != '?' by {
        assert(t[j] == path[j]);
    }
    text::lemma_first_at(path, '?', path.len() as int);
    text::lemma_first_at(t, '?', path.len() as int);
    assert(t.take(path.len() as int) =~= path);
    assert(t.skip(path.len() as int + 1) =~= query);
}

/// A time frame with both ends is the one that was asked for; any other ends now and is half an hour
/// long, or one, six or twenty-four hours where its name says so.
pub proof fn lemma_range_exactly(query: Seq<request::Pair>, now_ms: u64)
    ensures
        ({
            let since = number_in(query, "since"@, u64::MAX as nat);
            let until = number_in(query, "until"@, u64::MAX as nat);
            let name = request::lookup(query, "range"@);
            let r = range_of(query, now_ms);
            &&& since is Some && until is Some ==> r.0 == since->0
            &&& since is Some && until is Some && since->0 <= until->0 ==> r.1 == until->0
            &&& since is None || until is None ==> r.1 == now_ms
            &&& (since is None || until is None) && now_ms >= 86_400_000 ==> {
                &&& name == Some("24h"@) ==> r.0 == now_ms - 86_400_000
                &&& name == Some("6h"@) ==> r.0 == now_ms - 21_600_000
                &&& name == Some("1h"@) ==> r.0 == now_ms - 3_600_000
                &&& name != Some("24h"@) && name != Some("6h"@) && name != Some("1h"@) ==> r.0 == now_ms - 1_800_000
            }
        }),
{
    reveal_strlit("24h");
    reveal_strlit("6h");
    reveal_strlit("1h");
    assert("24h"@.len() == 3 && "6h"@.len() == 2 && "1h"@.len() == 2);
    assert("6h"@[0] == '6' && "1h"@[0] == '1');
}

/// A request that names the scheme in its header is let in exactly with the token behind it, whatever
/// its query says; one that names none exactly with the token in its query. Without a token to ask
/// for, everybody is let in.
pub proof fn lemma_authorized_exactly(
    headers: Seq<request::Pair>,
    query: Seq<request::Pair>,
    token: Seq<char>,
    given: Seq<char>,
)
    ensures
        token.len() == 0 ==> authorized(headers, query, token),
        token.len() > 0 && request::lookup(headers, "authorization"@) == Some("Bearer "@ + given) ==> (authorized(
            headers,
            query,
            token,
        ) <==> given == token),
        token.len() > 0 && request::lookup(headers, "authorization"@) == Some("bearer "@ + given) ==> (authorized(
            headers,
            query,
            token,
        ) <==> given == token),
        token.len() > 0 && request::lookup(headers, "authorization"@) is None ==> (authorized(headers, query, token)
            <==> request::lookup(query, "token"@) == Some(token)),
{
    reveal_strlit("");
    reveal_strlit("Bearer ");
    reveal_strlit("bearer ");
    assert("Bearer "@.len() == 7 && "bearer "@.len() == 7 && ""@.len() == 0);
    assert("Bearer "@[0] == 'B' && "bearer "@[0] == 'b');
    let a = "Bearer "@ + given;
    let b = "bearer "@ + given;
    assert(a.take(7) =~= "Bearer "@);
    assert(a.skip(7) =~= given);
    assert(b.take(7) =~= "bearer "@);
    assert(b.skip(7) =~= given);
}

proof fn lemma_read_paths()
    ensures
        "/api/stream"@ != "/api/events/range"@,
        "/api/stream"@ != "/api/events/series"@,
        "/api/stream"@ != "/api/state"@,
        "/api/stream"@ != "/api/events"@,
        "/api/stream"@ != "/api/goodbots"@,
        "/api/stream"@ != "/api/banned"@,
        "/api/events/range"@ != "/api/events/series"@,
        "/api/events/range"@ != "/api/state"@,
        "/api/events/range"@ != "/api/events"@,
        "/api/events/range"@ != "/api/goodbots"@,
        "/api/events/range"@ != "/api/banned"@,
        "/api/events/series"@ != "/api/state"@,
        "/api/events/series"@ != "/api/events"@,
        "/api/events/series"@ != "/api/goodbots"@,
        "/api/events/series"@ != "/api/banned"@,
        "/api/state"@ != "/api/events"@,
        "/api/state"@ != "/api/goodbots"@,
        "/api/state"@ != "/api/banned"@,
        "/api/events"@ != "/api/goodbots"@,
        "/api/events"@ != "/api/banned"@,
        "/api/goodbots"@ != "/api/banned"@,
{
    reveal_strlit("/api/stream");
    reveal_strlit("/api/events/range");
    reveal_strlit("/api/events/series");
    reveal_strlit("/api/state");
    reveal_strlit("/api/events");
    reveal_strlit("/api/goodbots");
    reveal_strlit("/api/banned");
    assert("/api/stream"@.len() == 11);
    assert("/api/events/range"@.len() == 17);
    assert("/api/events/series"@.len() == 18);
    assert("/api/state"@.len() == 10);
    assert("/api/events"@.len() == 11);
    assert("/api/goodbots"@.len() == 13);
    assert("/api/banned"@.len() == 11);
    assert("/api/stream"@[5] == 's' && "/api/events"@[5] == 'e');
    assert("/api/stream"@[5] == 's' && "/api/banned"@[5] == 'b');
    assert("/api/events"@[5] == 'e' && "/api/banned"@[5] == 'b');
}

proof fn lemma_change_paths()
    ensures
        "/api/runtime"@ != "/api/uam"@,
        "/api/runtime"@ != "/api/under_attack"@,
        "/api/runtime"@ != "/api/ip/allow"@,
        "/api/runtime"@ != "/api/ip/deny"@,
        "/api/runtime"@ != "/api/ip/unallow"@,
        "/api/runtime"@ != "/api/ip/undeny"@,
        "/api/runtime"@ != "/api/unban"@,
        "/api/uam"@ != "/api/under_attack"@,
        "/api/uam"@ != "/api/ip/allow"@,
        "/api/uam"@ != "/api/ip/deny"@,
        "/api/uam"@ != "/api/ip/unallow"@,
        "/api/uam"@ != "/api/ip/undeny"@,
        "/api/uam"@ != "/api/unban"@,
        "/api/under_attack"@ != "/api/ip/allow"@,
        "/api/under_attack"@ != "/api/ip/deny"@,
        "/api/under_attack"@ != "/api/ip/unallow"@,
        "/api/under_attack"@ != "/api/ip/undeny"@,
        "/api/under_attack"@ != "/api/unban"@,
        "/api/ip/allow"@ != "/api/ip/deny"@,
        "/api/ip/allow"@ != "/api/ip/unallow"@,
        "/api/ip/allow"@ != "/api/ip/undeny"@,
        "/api/ip/allow"@ != "/api/unban"@,
        "/api/ip/deny"@ != "/api/ip/unallow"@,
        "/api/ip/deny"@ != "/api/ip/undeny"@,
        "/api/ip/deny"@ != "/api/unban"@,
        "/api/ip/unallow"@ != "/api/ip/undeny"@,
        "/api/ip/unallow"@ != "/api/unban"@,
        "/api/ip/undeny"@ != "/api/unban"@,
{
    reveal_strlit("/api/runtime");
    reveal_strlit("/api/uam");
    reveal_strlit("/api/under_attack");
    reveal_strlit("/api/ip/allow");
    reveal_strlit("/api/ip/deny");
    reveal_strlit("/api/ip/unallow");
    reveal_strlit("/api/ip/undeny");
    reveal_strlit("/api/unban");
    assert("/api/runtime"@.len() == 12);
    assert("/api/uam"@.len() == 8);
    assert("/api/under_attack"@.len() == 17);
    assert("/api/ip/allow"@.len() == 13);
    assert("/api/ip/deny"@.len() == 12);
    assert("/api/ip/unallow"@.len() == 15);
    assert("/api/ip/undeny"@.len() == 14);
    assert("/api/unban"@.len() == 10);
    assert("/api/runtime"@[5] == 'r' && "/api/ip/deny"@[5] == 'i');
}

proof fn lemma_file_paths()
    ensures
        "/"@ != "/index.html"@,
        "/"@ != "/firewall"@,
        "/"@ != "/traffic"@,
        "/"@ != "/settings"@,
        "/"@ != "/healthz"@,
        "/"@ != "/static/dashboard.js"@,
        "/"@ != "/static/dashboard.css"@,
        "/index.html"@ != "/firewall"@,
        "/index.html"@ != "/traffic"@,
        "/index.html"@ != "/settings"@,
        "/index.html"@ != "/healthz"@,
        "/index.html"@ != "/static/dashboard.js"@,
        "/index.html"@ != "/static/dashboard.css"@,
        "/firewall"@ != "/traffic"@,
        "/firewall"@ != "/settings"@,
        "/firewall"@ != "/healthz"@,
        "/firewall"@ != "/static/dashboard.js"@,
        "/firewall"@ != "/static/dashboard.css"@,
        "/traffic"@ != "/settings"@,
        "/traffic"@ != "/healthz"@,
        "/traffic"@ != "/static/dashboard.js"@,
        "/traffic"@ != "/static/dashboard.css"@,
        "/settings"@ != "/healthz"@,
        "/settings"@ != "/static/dashboard.js"@,
        "/settings"@ != "/static/dashboard.css"@,
        "/healthz"@ != "/static/dashboard.js"@,
        "/healthz"@ != "/static/dashboard.css"@,
        "/static/dashboard.js"@ != "/static/dashboard.css"@,
{
    reveal_strlit("/");
    reveal_strlit("/index.html");
    reveal_strlit("/firewall");
    reveal_strlit("/traffic");
    reveal_strlit("/settings");
    reveal_strlit("/healthz");
    reveal_strlit("/static/dashboard.js");
    reveal_strlit("/static/dashboard.css");
    assert("/"@.len() == 1);
    assert("/index.html"@.len() == 11);
    assert("/firewall"@.len() == 9);
    assert("/traffic"@.len() == 8);
    assert("/settings"@.len() == 9);
    assert("/healthz"@.len() == 8);
    assert("/static/dashboard.js"@.len() == 20);
    assert("/static/dashboard.css"@.len() == 21);
    assert("/firewall"@[1] == 'f' && "/settings"@[1] == 's');
    assert("/traffic"@[1] == 't' && "/healthz"@[1] == 'h');
}

proof fn lemma_methods()
    ensures
        "GET"@ != "POST"@,
{
    reveal_strlit("GET");
    reveal_strlit("POST");
    assert("GET"@.len() == 3 && "POST"@.len() == 4);
}

/// Each endpoint that shows something is reached by GET under its own path, and each that changes
/// something by POST.
pub proof fn lemma_api_exactly(method: Seq<char>, path: Seq<char>)
    ensures
        ({
            let e = api_endpoint(method, path);
            let get = method == "GET"@;
            let post = method == "POST"@;
            &&& e == Endpoint::Stream <==> get && path == "/api/stream"@
            &&& e == Endpoint::Range <==> get && path == "/api/events/range"@
            &&& e == Endpoint::Series <==> get && path == "/api/events/series"@
            &&& e == Endpoint::State <==> get && path == "/api/state"@
            &&& e == Endpoint::Events <==> get && path == "/api/events"@
            &&& e == Endpoint::GoodBots <==> get && path == "/api/goodbots"@
            &&& e == Endpoint::Banned <==> get && path == "/api/banned"@
            &&& e == Endpoint::Patch <==> post && path == "/api/runtime"@
            &&& e == Endpoint::Uam <==> post && path == "/api/uam"@
            &&& e == Endpoint::UnderAttack <==> post && path == "/api/under_attack"@
            &&& e == Endpoint::Allow <==> post && path == "/api/ip/allow"@
            &&& e == Endpoint::Deny <==> post && path == "/api/ip/deny"@
            &&& e == Endpoint::Unallow <==> post && path == "/api/ip/unallow"@
            &&& e == Endpoint::Undeny <==> post && path == "/api/ip/undeny"@
            &&& e == Endpoint::Unban <==> post && path == "/api/unban"@
            &&& !is_open(e)
        }),
{
    lemma_methods();
    lemma_read_paths();
    lemma_change_paths();
}

/// The files are there for GET alone, each under its own path; the dashboard under five.
pub proof fn lemma_files_exactly(method: Seq<char>, path: Seq<char>)
    ensures
        ({
            let e = file_endpoint(method, path);
            let get = method == "GET"@;
            &&& e == Endpoint::Health <==> get && path == "/healthz"@
            &&& e == Endpoint::Script <==> get && path == "/static/dashboard.js"@
            &&& e == Endpoint::Style <==> get && path == "/static/dashboard.css"@
            &&& e == Endpoint::Page <==> get && (path == "/"@ || path == "/index.html"@ || path == "/firewall"@ || path
                == "/traffic"@ || path == "/settings"@)
            &&& is_open(e)
        }),
{
    lemma_file_paths();
    let l = page_paths();
    assert(l[0] == "/"@ && l[1] == "/index.html"@ && l[2] == "/firewall"@ && l[3] == "/traffic"@ && l[4]
        == "/settings"@ && l.len() == 5);
}

/// What a change with an option gives: the new value where there is one, the old one else.
pub open spec fn takes<T>(new: T, o: Option<T>, before: T) -> bool {
    new == match o {
        Some(v) => v,
        None => before,
    }
}

/// Every setting takes the value that a change holds for it, and keeps its own where it holds none;
/// the level stops at four and the mode at two.
pub proof fn lemma_patch_fields(v: RuntimeView, p: RuntimePatch)
    ensures
        ({
            let r = patched(v, p);
            &&& takes(r.under_attack, p.under_attack, v.under_attack)
            &&& takes(r.auto_uam_enabled, p.auto_uam_enabled, v.auto_uam_enabled)
            &&& takes(r.auto_uam_threshold, p.auto_uam_threshold, v.auto_uam_threshold)
            &&& takes(r.challenge_threshold, p.challenge_threshold, v.challenge_threshold)
            &&& takes(r.block_threshold, p.block_threshold, v.block_threshold)
            &&& takes(r.max_concurrent_per_ip, p.max_concurrent_per_ip, v.max_concurrent_per_ip)
            &&& takes(r.rpm_under_attack_bps, p.rpm_under_attack_bps, v.rpm_under_attack_bps)
            &&& takes(r.subnet_rpm, p.subnet_rpm, v.subnet_rpm)
            &&& takes(r.subnet_conn, p.subnet_conn, v.subnet_conn)
            &&& takes(r.global_inflight_cap, p.global_inflight_cap, v.global_inflight_cap)
            &&& takes(r.tarpit_score, p.tarpit_score, v.tarpit_score)
            &&& takes(r.datacenter_block, p.datacenter_block, v.datacenter_block)
            &&& p.uam_level is None ==> r.uam_level == v.uam_level
            &&& p.uam_level is Some && p.uam_level->0 <= 4 ==> r.uam_level == p.uam_level->0
            &&& p.uam_level is Some && p.uam_level->0 > 4 ==> r.uam_level == 4
            &&& p.challenge_mode is None ==> r.challenge_mode == v.challenge_mode
            &&& p.challenge_mode is Some && p.challenge_mode->0 <= 2 ==> r.challenge_mode == p.challenge_mode->0
            &&& p.challenge_mode is Some && p.challenge_mode->0 > 2 ==> r.challenge_mode == 2
            &&& p.turnstile_secret is Some && p.turnstile_secret->0@.len() > 0 ==> r.turnstile_secret
                == p.turnstile_secret->0@
            &&& p.turnstile_secret is None || p.turnstile_secret->0@.len() == 0 ==> r.turnstile_secret
                == v.turnstile_secret
            &&& p.turnstile_site_key is Some ==> r.turnstile_site_key == p.turnstile_site_key->0@
            &&& p.turnstile_site_key is None ==> r.turnstile_site_key == v.turnstile_site_key
            &&& p.blocked_countries is None ==> r.blocked_countries == v.blocked_countries
            &&& p.blocked_countries matches Some(list) ==> r.blocked_countries.len() == list@.len() && forall|i: int|
                0 <= i < list@.len() ==> #[trigger] r.blocked_countries[i] == text::upper_text(list@[i]@)
            &&& p.turnstile_provider is None ==> r.turnstile_provider == v.turnstile_provider
            &&& p.turnstile_provider is Some ==> r.turnstile_provider == lowercase_of(p.turnstile_provider->0@)
            &&& r.lockdown == v.lockdown
            &&& r.auto_lockdown == v.auto_lockdown
            &&& r.unsaved
        }),
{
}

/// Every rule and every defence takes the switch that a change holds for it, and keeps its own where
/// it holds none.
pub proof fn lemma_patch_switches(v: RuntimeView, p: RuntimePatch)
    ensures
        ({
            let r = patched(v, p);
            &&& p.rules is None ==> r.rules == v.rules
            &&& p.rules matches Some(t) ==> {
                &&& takes(r.rules.sqli, t.sqli, v.rules.sqli)
                &&& takes(r.rules.xss, t.xss, v.rules.xss)
                &&& takes(r.rules.traversal, t.traversal, v.rules.traversal)
                &&& takes(r.rules.cmdi, t.cmdi, v.rules.cmdi)
                &&& takes(r.rules.lfi, t.lfi, v.rules.lfi)
                &&& takes(r.rules.bot_ua, t.bot_ua, v.rules.bot_ua)
                &&& takes(r.rules.rate_limit, t.rate_limit, v.rules.rate_limit)
            }
            &&& p.defenses is None ==> r.defenses == v.defenses
            &&& p.defenses matches Some(t) ==> {
                &&& takes(r.defenses.bot_score, t.bot_score, v.defenses.bot_score)
                &&& takes(r.defenses.behavior, t.behavior, v.defenses.behavior)
                &&& takes(r.defenses.ddos, t.ddos, v.defenses.ddos)
                &&& takes(r.defenses.honeypots, t.honeypots, v.defenses.honeypots)
                &&& takes(r.defenses.subnet, t.subnet, v.defenses.subnet)
                &&& takes(r.defenses.replay, t.replay, v.defenses.replay)
                &&& takes(r.defenses.dist_ua, t.dist_ua, v.defenses.dist_ua)
                &&& takes(r.defenses.goodbot, t.goodbot, v.defenses.goodbot)
                &&& takes(r.defenses.bic, t.bic, v.defenses.bic)
                &&& r.defenses.browser_integrity == v.defenses.browser_integrity
            }
        }),
{
}

/// The traps are replaced exactly by a change that holds some.
pub proof fn lemma_patch_traps(v: EngineView, p: RuntimePatch)
    ensures
        p.honeypot_paths is None ==> engine_patched(v, p).traps == v.traps,
        p.honeypot_paths matches Some(t) ==> engine_patched(v, p).traps == t.deep_view(),
        engine_patched(v, p).rep == v.rep,
        engine_patched(v, p).log == v.log,
        engine_patched(v, p).rate == v.rate,
{
}

/// In a panic the level is the highest; else it is the one that was asked for, the highest from four
/// on, and none where no number was given.
pub proof fn lemma_level_asked(query: Seq<request::Pair>)
    ensures
        ({
            let panic = request::lookup(query, "panic"@) == Some("true"@);
            let n = number_in(query, "level"@, 255);
            &&& panic ==> level_asked(query) == 4
            &&& !panic && n is None ==> level_asked(query) == 0
            &&& !panic && n is Some && n->0 <= 4 ==> level_asked(query) == n->0
            &&& !panic && n is Some && n->0 > 4 ==> level_asked(query) == 4
        }),
{
}

/// A network that is put on a list covers its addresses from then on; one that is taken off leaves
/// the others. Each endpoint touches its own list alone.
pub proof fn lemma_list_endpoints(v: RuntimeView, n: net::IpNet, ip: IpAddr)
    ensures
        n.covers(ip) ==> net::any_covers(list_changed(v, Endpoint::Deny, n).deny, ip),
        n.covers(ip) ==> net::any_covers(list_changed(v, Endpoint::Allow, n).allow, ip),
        net::any_covers(v.deny, ip) ==> net::any_covers(list_changed(v, Endpoint::Deny, n).deny, ip),
        net::any_covers(v.allow, ip) ==> net::any_covers(list_changed(v, Endpoint::Allow, n).allow, ip),
        list_changed(v, Endpoint::Deny, n).allow == v.allow,
        list_changed(v, Endpoint::Undeny, n).allow == v.allow,
        list_changed(v, Endpoint::Allow, n).deny == v.deny,
        list_changed(v, Endpoint::Unallow, n).deny == v.deny,
        list_changed(v, Endpoint::Deny, n).unsaved,
        list_changed(v, Endpoint::Allow, n).unsaved,
        list_changed(v, Endpoint::Undeny, n).unsaved,
        list_changed(v, Endpoint::Unallow, n).unsaved,
{
    lemma_with_covers(v.deny, n, ip);
    lemma_with_covers(v.allow, n, ip);
}

proof fn lemma_with_covers(list: Seq<net::IpNet>, n: net::IpNet, ip: IpAddr)
    ensures
        n.covers(ip) ==> net::any_covers(runtime::with_net(list, n), ip),
        net::any_covers(list, ip) ==> net::any_covers(runtime::with_net(list, n), ip),
{
    let l = runtime::with_net(list, n);
    if n.covers(ip) {
        runtime::lemma_net_lists(list, n, n);
        let i = choose|i: int| 0 <= i < l.len() && l[i] == n;
        assert(l[i].covers(ip));
    }
    if net::any_covers(list, ip) {
        let i = choose|i: int| 0 <= i < list.len() && (#[trigger] list[i]).covers(ip);
        assert(l[i].covers(ip));
    }
}

/// A request to change a list that names no network changes nothing and is refused; any other is
/// done.
pub proof fn lemma_list_replies(v: RuntimeView, e: Endpoint, query: Seq<request::Pair>)
    ensures
        ({
            let c = request::lookup(query, "cidr"@);
            let named = c is Some && net::parsed_net(c->0) is Some;
            &&& named ==> list_reply(query).status == 204 && after_list_change(v, e, query) == list_changed(
                v,
                e,
                net::parsed_net(c->0)->0,
            )
            &&& !named ==> list_reply(query).status == 400 && after_list_change(v, e, query) == v
        }),
{
}

/// The ban of the address that was named is lifted, and nothing where none was.
pub proof fn lemma_unban_endpoint(v: EngineView, query: Seq<request::Pair>, ip: IpAddr, now: u64)
    ensures
        request::lookup(query, "ip"@) is Some && net::parsed_ip(request::lookup(query, "ip"@)->0) == Some(ip)
            ==> !reputation::banned_in(after_api(v, Endpoint::Unban, query).rep.state, ip.spec_key(), now),
        request::lookup(query, "ip"@) is None ==> after_api(v, Endpoint::Unban, query) == v,
{
}

/// The under-attack mode is on exactly when it was asked for in so many words.
pub proof fn lemma_attack_switch(v: EngineView, query: Seq<request::Pair>)
    ensures
        after_api(v, Endpoint::UnderAttack, query).rt.under_attack <==> request::lookup(query, "on"@) == Some("true"@),
        after_api(v, Endpoint::UnderAttack, query).rt.unsaved,
        after_api(v, Endpoint::Uam, query).rt.uam_level == level_asked(query),
        after_api(v, Endpoint::Uam, query).rt.unsaved,
{
}

/// The answers to what cannot be done.
pub proof fn lemma_refusals(msg: Seq<char>)
    ensures
        bad_request_of(msg).status == 400,
        not_found_reply().status == 404,
        unauthorized_reply().status == 401,
        done_reply().status == 204,
{
}

/// A hundred events are listed where no number was given, and five hundred at most; with a time those
/// after it, without one the newest.
pub proof fn lemma_events_listed(log: Seq<events::EventView>, query: Seq<request::Pair>)
    ensures
        ({
            let since = number_in(query, "since"@, u64::MAX as nat);
            let n = number_in(query, "limit"@, usize::MAX as nat);
            let limit: nat = if n is None {
                100
            } else if n->0 > 500 {
                500
            } else {
                n->0
            };
            &&& events_for(log, query).len() <= limit
            &&& since is None || since->0 == 0 ==> events_for(log, query) == events::newest(log, limit)
            &&& since is Some && since->0 > 0 ==> events_for(log, query) == events::after_time(
                log,
                since->0 as u64,
                limit,
            )
        }),
{
    let since = match number_in(query, "since"@, u64::MAX as nat) {
        Some(n) => n,
        None => 0,
    };
    let limit = bounded_number(query, "limit"@, 100, 500);
    events::lemma_after_time(log, since as u64, limit);
    events::lemma_newest_exactly(log, limit);
}

/// The watchdog moves the level up exactly when the blocks since the last look, five seconds ago, have
/// reached the threshold, and down exactly when they are no more than a quarter of it; never within
/// half a minute of the last change, and never while it is off.
pub proof fn lemma_watchdog_exactly(w: AutoUam, rt: RuntimeView, blocked: u64, now: u64)
    requires
        rt.uam_level <= 4,
        w.prev_blocks <= blocked,
        blocked - w.prev_blocks <= u32::MAX,
        w.last_change <= now,
    ensures
        ({
            let r = level_after(w, rt, blocked, now);
            let rate = (blocked - w.prev_blocks) / 5;
            let free = rt.auto_uam_enabled && now - w.last_change >= 30;
            let up = rate >= rt.auto_uam_threshold && rt.uam_level < 4;
            &&& r == rt.uam_level + 1 <==> free && up
            &&& r == rt.uam_level - 1 <==> free && !up && rt.uam_level > 0 && rate <= rt.auto_uam_threshold / 4
        }),
{
}

/// A sweep drops the counters that rested for two minutes and keeps the others, and changes neither a
/// count of requests in flight nor a ban.
pub proof fn lemma_sweep_exactly(v: EngineView, now: u64, k: crate::table::Key)
    requires
        forall|j: crate::table::Key| #[trigger] v.conns.contains_key(j) ==> v.conns[j] >= 0,
    ensures
        connections::count_at(swept(v, now).conns, k) == connections::count_at(v.conns, k),
        reputation::banned_in(swept(v, now).rep.state, k, now) <==> reputation::banned_in(v.rep.state, k, now),
        swept(v, now).rate.counters.contains_key(k) <==> v.rate.counters.contains_key(k) && now
            - v.rate.counters[k].head < 120,
        swept(v, now).rate.counters.contains_key(k) ==> swept(v, now).rate.counters[k] == v.rate.counters[k],
        swept(v, now).rt == v.rt,
        swept(v, now).log == v.log,
{
}

/// A body is read in chunks of eight kibibytes at most, up to its end and not beyond it; what came
/// beyond it is dropped.
pub proof fn lemma_chunks(body: Seq<u8>, have: nat, whole: nat)
    ensures
        0 <= next_chunk(have, whole) <= 8192,
        have <= whole ==> have + next_chunk(have, whole) <= whole,
        next_chunk(have, whole) == 0 <==> have >= whole,
        have < whole && whole - have <= 8192 ==> have + next_chunk(have, whole) == whole,
        have < whole && whole - have > 8192 ==> next_chunk(have, whole) == 8192,
        body.len() <= whole ==> closed_body(body, whole) == body,
        body.len() > whole ==> closed_body(body, whole) == body.take(whole as int),
{
}

/// A head is refused above 64 kibibytes, and a message of the stream holds two hundred events at most.
pub proof fn lemma_server_bounds()
    ensures
        MAX_HEAD == 65_536,
        MAX_BODY == 1_048_576,
        STREAM_MAX == 200,
{
}

/// A stream never sends an event twice: what it sends next is younger than everything that it sent,
/// as long as the log is in the order of time.
pub proof fn lemma_stream_goes_on(log: Seq<events::EventView>, last_ts: u64, max: nat, i: int, j: int)
    requires
        ({
            let sent = events::after_time(log, last_ts, max);
            &&& forall|a: int, b: int| 0 <= a <= b < sent.len() ==> (#[trigger] sent[a]).ts_ms <= (
            #[trigger] sent[b]).ts_ms
            &&& 0 <= i < sent.len()
            &&& 0 <= j < events::after_time(log, reached(sent, last_ts), max).len()
        }),
    ensures
        ({
            let sent = events::after_time(log, last_ts, max);
            let next = events::after_time(log, reached(sent, last_ts), max);
            &&& sent[i].ts_ms < next[j].ts_ms
            &&& last_ts < reached(sent, last_ts)
        }),
{
    let sent = events::after_time(log, last_ts, max);
    let to = reached(sent, last_ts);
    events::lemma_after_time(log, last_ts, max);
    events::lemma_after_time(log, to, max);
    let next = events::after_time(log, to, max);
    assert(next[j].ts_ms > to);
    assert(sent[sent.len() - 1].ts_ms > last_ts);
    assert(sent[i].ts_ms <= sent[sent.len() - 1].ts_ms);
}

/// Every look starts the count of blocks anew; only a look that moves the level starts the pause.
pub proof fn lemma_looks(w: AutoUam, rt: RuntimeView, blocked: u64, now: u64)
    ensures
        after_look(w, rt, blocked, now).prev_blocks == blocked,
        level_after(w, rt, blocked, now) == rt.uam_level ==> after_look(w, rt, blocked, now).last_change
            == w.last_change,
        level_after(w, rt, blocked, now) != rt.uam_level ==> after_look(w, rt, blocked, now).last_change == now,
{
}

/// Five hundred stored events are given where no number was asked for, and five thousand at most.
pub proof fn lemma_frame_limit(query: Seq<request::Pair>)
    ensures
        ({
            let n = number_in(query, "limit"@, usize::MAX as nat);
            &&& n is None ==> frame_limit(query) == 500
            &&& n is Some && n->0 <= 5000 ==> frame_limit(query) == n->0
            &&& n is Some && n->0 > 5000 ==> frame_limit(query) == 5000
        }),
{
}

/// The endpoints that show something answer with what there is, the others with the outcome, and the
/// refusals say so.
pub proof fn lemma_answers(r: ApiReply, e: Engine, query: Seq<request::Pair>, now: u64)
    ensures
        answers(r, e, Endpoint::Unauthorized, query, now) ==> r is Text && r->Text_0.status == 401,
        answers(r, e, Endpoint::UnknownApi, query, now) ==> r is Text && r->Text_0.status == 404,
        answers(r, e, Endpoint::State, query, now) ==> r is State && reports(r->State_0, e),
        answers(r, e, Endpoint::Events, query, now) ==> r is Events && events::event_views(r->Events_0@) == events_for(
            e@.log.events,
            query,
        ),
        answers(r, e, Endpoint::Uam, query, now) ==> r is Text && r->Text_0.status == 200,
        answers(r, e, Endpoint::Patch, query, now) ==> r is WantsPatch,
        answers(r, e, Endpoint::Unban, query, now) ==> r is Text && (r->Text_0.status == 204 <==> unban_asked(query)
            is Some),
        answers(r, e, Endpoint::Deny, query, now) ==> r is Text && r->Text_0@ == list_reply(query),
{
}

/// A report shows the counters, the settings and the requests in flight as they are.
pub proof fn lemma_report(r: StateReport, e: Engine)
    requires
        reports(r, e),
    ensures
        r.metrics.blocked == e.metrics.blocked,
        r.metrics.allowed == e.metrics.allowed,
        r.in_flight_total == connections::sum_of(e.conns@),
        r.runtime@.turnstile_secret is None,
        r.runtime@.honeypot_paths == Some(e@.traps),
        r.runtime@.block_threshold == Some(e.runtime@.block_threshold),
        r.subnets_tracked == e.subnets@.counters.dom().len(),
{
}

} // verus!
