//! The proxy in front of the upstream: what it reads of a request, which of its answers a request
//! gets, and what it tells the upstream.

use crate::bic;
use crate::challenge;
use crate::clock::{now_nanos, now_secs};
use crate::connections;
use crate::crypto;
use crate::decision::{Action, Decision, DecisionView};
use crate::engine::{self, Engine, EngineView, Signals};
use crate::fingerprint;
use crate::http::{bytes_of, Reply, ReplyView};
use crate::json::{self, json_string};
use crate::metrics::{self, Metrics};
use crate::net::{self, parse_ip, IpAddr};
use crate::num::{self, dec, parse_u64, push_hex};
use crate::redirect;
use crate::request::{self, parse_cookie_header, RequestCtx, TextMap};
use crate::runtime::{self, ChallengeMode};
use crate::subnet;
use crate::text::{self, cat5, cat6, same_fold, same_text, split, split_once, to_lower, trim};
use crate::turnstile::{self, Provider};
use vstd::prelude::*;

verus! {

/// A header as it arrived. The value is missing where it is not made of visible ASCII.
#[derive(Debug)]
pub struct RawHeader {
    pub name: String,
    pub value: Option<String>,
}

/// A request as it arrived.
#[derive(Debug)]
pub struct RawRequest {
    /// The address of the other end of the connection.
    pub socket_ip: Option<IpAddr>,
    pub method: String,
    pub uri: String,
    pub path: String,
    pub query: Option<String>,
    /// The path and the query together.
    pub target: Option<String>,
    /// The protocol version, such as `HTTP/1.1`.
    pub version: String,
    /// The headers in the order of arrival.
    pub headers: Vec<RawHeader>,
}

// ---------------------------------------------------------------------------
// Headers
// ---------------------------------------------------------------------------

/// The headers by lower-cased name, each with the first value that can be read, in the order of
/// arrival.
pub open spec fn first_values(headers: Seq<RawHeader>) -> Seq<request::Pair>
    decreases headers.len(),
{
    if headers.len() == 0 {
        seq![]
    } else {
        let before = first_values(headers.drop_last());
        let name = text::lower_text(headers.last().name@);
        match headers.last().value {
            Some(v) => if request::lookup(before, name) is Some {
                before
            } else {
                request::put(before, name, v@)
            },
            None => before,
        }
    }
}

/// The names of a list of headers.
pub open spec fn names_of(list: Seq<request::Pair>) -> Seq<Seq<char>> {
    Seq::new(list.len(), |i: int| list[i].0)
}

/// The value of the first header of a name, if it can be read.
pub open spec fn raw_value(headers: Seq<RawHeader>, name: Seq<char>) -> Option<Seq<char>>
    decreases headers.len(),
{
    if headers.len() == 0 {
        None
    } else if text::lower_text(headers[0].name@) == name {
        match headers[0].value {
            Some(v) => Some(v@),
            None => None,
        }
    } else {
        raw_value(headers.drop_first(), name)
    }
}

/// Collects the headers by name.
fn collect_headers(headers: &Vec<RawHeader>) -> (r: (TextMap, Vec<String>))
    ensures
        r.0@ == first_values(headers@),
        r.1.deep_view() == names_of(first_values(headers@)),
        request::distinct(r.0@),
{
    let ghost all = headers@;
    let mut map = TextMap::new();
    let mut order: Vec<String> = Vec::new();
    assert(all.take(0) =~= seq![]);
    assert(order.deep_view() =~= names_of(map@));
    for i in 0..headers.len()
        invariant
            all == headers@,
            map@ == first_values(all.take(i as int)),
            order.deep_view() == names_of(map@),
            request::distinct(map@),
    {
        let ghost before = map@;
        let ghost names = order.deep_view();
        proof {
            assert(all.take(i + 1).drop_last() =~= all.take(i as int));
            assert(all.take(i + 1).last() == all[i as int]);
        }
        if let Some(v) = &headers[i].value {
            let name = to_lower(headers[i].name.as_str());
            if map.get(name.as_str()).is_none() {
                proof {
                    request::lemma_put(before, name@, v@);
                    request::lemma_put_new(before, name@, v@);
                }
                order.push(name.clone());
                map.insert(name, v.clone());
                assert(order.deep_view() =~= names.push(name@));
                assert(order.deep_view() =~= names_of(map@));
            }
        }
    }
    assert(all.take(all.len() as int) =~= all);
    (map, order)
}

/// The value of the first header of a lower-case name, if it can be read.
pub fn read_header(headers: &Vec<RawHeader>, name: &str) -> (r: Option<String>)
    ensures
        r.deep_view() == raw_value(headers@, name@),
{
    let ghost all = headers@;
    assert(all.skip(0) =~= all);
    for i in 0..headers.len()
        invariant
            all == headers@,
            raw_value(all, name@) == raw_value(all.skip(i as int), name@),
    {
        assert(all.skip(i as int)[0] == all[i as int]);
        assert(all.skip(i as int).drop_first() =~= all.skip(i + 1));
        if same_text(to_lower(headers[i].name.as_str()).as_str(), name) {
            return match &headers[i].value {
                Some(v) => Some(v.clone()),
                None => None,
            };
        }
    }
    None
}

// ---------------------------------------------------------------------------
// The client
// ---------------------------------------------------------------------------

/// The address `0.0.0.0`, which stands for a connection without one.
pub open spec fn no_address() -> IpAddr {
    IpAddr::V4(0)
}

pub open spec fn socket_address(socket_ip: Option<IpAddr>) -> IpAddr {
    match socket_ip {
        Some(ip) => ip,
        None => no_address(),
    }
}

/// The address of the client, where `hops` proxies in front are trusted: the one that stands in
/// that place from the right of the chain. A chain that is too short gives its first address, and
/// what is no address gives way to that of the connection.
pub open spec fn client_of(socket: IpAddr, chain: Seq<Seq<char>>, hops: u8) -> IpAddr {
    let want = if chain.len() > hops {
        chain.len() - hops
    } else {
        0
    };
    if hops == 0 {
        socket
    } else {
        match net::parsed_ip(text::trimmed(chain[want])) {
            Some(ip) => ip,
            None => socket,
        }
    }
}

/// The address of the client of a request.
pub open spec fn resolved_ip(socket_ip: Option<IpAddr>, forwarded: Option<Seq<char>>, hops: u8) -> IpAddr {
    match forwarded {
        Some(f) => client_of(socket_address(socket_ip), text::pieces(f, ','), hops),
        None => socket_address(socket_ip),
    }
}

/// What a client puts in front of the chain does not change its address: only the last `hops`
/// parts count.
pub proof fn lemma_forged_chain(socket: IpAddr, a: Seq<Seq<char>>, b: Seq<Seq<char>>, hops: u8)
    requires
        a.len() >= hops,
        b.len() >= hops,
        a.skip(a.len() - hops) == b.skip(b.len() - hops),
    ensures
        client_of(socket, a, hops) == client_of(socket, b, hops),
{
    if hops > 0 {
        assert(a[a.len() - hops] == a.skip(a.len() - hops)[0]);
        assert(b[b.len() - hops] == b.skip(b.len() - hops)[0]);
    }
}

/// The address of the client.
pub fn resolve_client_ip(socket_ip: Option<IpAddr>, forwarded: Option<&str>, trusted_hops: u8) -> (r: IpAddr)
    ensures
        r == resolved_ip(socket_ip, redirect::opt_view(forwarded), trusted_hops),
{
    let socket = match socket_ip {
        Some(ip) => ip,
        None => IpAddr::V4(0),
    };
    if trusted_hops == 0 {
        return socket;
    }
    match forwarded {
        None => socket,
        Some(f) => {
            let parts = split(f, ',');
            let n: usize = parts.len();
            let hops: usize = trusted_hops as usize;
            let want: usize = if n > hops {
                n - hops
            } else {
                0
            };
            assert(parts.deep_view()[want as int] == parts@[want as int]@);
            match parse_ip(trim(parts[want].as_str()).as_str()) {
                Some(ip) => ip,
                None => socket,
            }
        },
    }
}

// ---------------------------------------------------------------------------
// Cookies
// ---------------------------------------------------------------------------

/// The lower-cased names in the parts of a cookie header, in their order.
pub open spec fn cookie_names(parts: Seq<Seq<char>>) -> Seq<Seq<char>>
    decreases parts.len(),
{
    if parts.len() == 0 {
        seq![]
    } else {
        match text::cut_at(parts.last(), '=') {
            Some((k, _)) => cookie_names(parts.drop_last()).push(text::lower_text(text::trimmed(k))),
            None => cookie_names(parts.drop_last()),
        }
    }
}

fn order_cookies(header: &str) -> (r: Vec<String>)
    ensures
        r.deep_view() == cookie_names(text::pieces(header@, ';')),
{
    let parts = split(header, ';');
    let ghost all = text::pieces(header@, ';');
    let mut out: Vec<String> = Vec::new();
    assert(out.deep_view() =~= cookie_names(all.take(0)));
    for i in 0..parts.len()
        invariant
            parts.deep_view() == all,
            out.deep_view() == cookie_names(all.take(i as int)),
    {
        let ghost before = out.deep_view();
        assert(parts@[i as int]@ == all[i as int]);
        proof {
            assert(all.take(i + 1).drop_last() =~= all.take(i as int));
            assert(all.take(i + 1).last() == all[i as int]);
        }
        if let Some((k, _)) = split_once(parts[i].as_str(), '=') {
            let name = to_lower(trim(k.as_str()).as_str());
            out.push(name);
            assert(out.deep_view() =~= before.push(name@));
        }
    }
    assert(all.take(all.len() as int) =~= all);
    out
}

// ---------------------------------------------------------------------------
// The request
// ---------------------------------------------------------------------------

/// The number behind a request id.
pub open spec fn id_number(nanos: u128, thread_len: u64) -> u64 {
    (nanos as u64).wrapping_mul(2862933555777941757).wrapping_add(3037000493) ^ thread_len
}

/// The id of a request: sixteen hexadecimal digits.
pub open spec fn id_text(nanos: u128, thread_len: u64) -> Seq<char> {
    num::hex_text(id_number(nanos, thread_len) as nat, 16)
}

/// An id for a request that came at this time. `thread_len` is the length of the name of the
/// thread.
pub fn gen_request_id_at(nanos: u128, thread_len: u64) -> (r: String)
    ensures
        r@ == id_text(nanos, thread_len),
        r@.len() == 16,
{
    let low: u64 = nanos as u64;
    let h: u64 = low.wrapping_mul(2862933555777941757).wrapping_add(3037000493) ^ thread_len;
    let mut out = String::new();
    push_hex(&mut out, h, 16);
    proof {
        num::lemma_hex_len(h as nat, 16);
        assert(out@ =~= num::hex_text(h as nat, 16));
    }
    out
}

/// An id for a request.
pub fn gen_request_id(thread_len: u64) -> (r: String)
    ensures
        exists|nanos: u128| r@ == #[trigger] id_text(nanos, thread_len),
{
    let nanos: u128 = now_nanos();
    gen_request_id_at(nanos, thread_len)
}

pub open spec fn or_empty(s: Option<Seq<char>>) -> Seq<char> {
    match s {
        Some(t) => t,
        None => seq![],
    }
}

/// What the library knows of a request as it arrived.
pub open spec fn describes(ctx: RequestCtx, raw: RawRequest, hops: u8, id: Seq<char>) -> bool {
    let headers = first_values(raw.headers@);
    let cookie_header = request::lookup(headers, "cookie"@);
    let parts = match cookie_header {
        Some(c) => text::pieces(c, ';'),
        None => seq![],
    };
    &&& ctx.request_id@ == id
    &&& ctx.client_ip == resolved_ip(raw.socket_ip, raw_value(raw.headers@, "x-forwarded-for"@), hops)
    &&& ctx.method@ == raw.method@
    &&& ctx.uri@ == raw.uri@
    &&& ctx.path@ == raw.path@
    &&& ctx.query@ == or_empty(raw.query.deep_view())
    &&& ctx.host@ == or_empty(request::lookup(headers, "host"@))
    &&& ctx.user_agent@ == or_empty(request::lookup(headers, "user-agent"@))
    &&& ctx.http_version@ == raw.version@
    &&& ctx.headers@ == headers
    &&& ctx.header_order.deep_view() == names_of(headers)
    &&& ctx.cookies@ == request::cookies_of(parts)
    &&& ctx.cookie_order.deep_view() == cookie_names(parts)
    &&& ctx.body_preview@.len() == 0
    &&& match request::lookup(headers, "content-length"@) {
        Some(v) => match num::parse_up_to(v, u64::MAX as nat) {
            Some(n) => ctx.content_length is Some && ctx.content_length->0 == n,
            None => ctx.content_length is None,
        },
        None => ctx.content_length is None,
    }
    &&& ctx.country is None
    &&& ctx.ja4h@ == fingerprint::ja4h_of(
        raw.method@,
        raw.version@,
        names_of(headers),
        headers,
        cookie_names(parts),
        request::cookies_of(parts),
    )
    &&& ctx.ja3@.len() == 0
    &&& ctx.ja4@.len() == 0
}

fn text_or_empty(s: Option<&String>) -> (r: String)
    ensures
        match s {
            Some(t) => r@ == t@,
            None => r@ == Seq::<char>::empty(),
        },
{
    match s {
        Some(t) => t.clone(),
        None => {
            proof {
                reveal_strlit("");
                assert(""@ =~= Seq::<char>::empty());
            }
            "".to_string()
        },
    }
}

/// What the engine is told of a request.
pub fn build_request_ctx(raw: &RawRequest, trusted_hops: u8, request_id: String) -> (r: RequestCtx)
    ensures
        describes(r, *raw, trusted_hops, request_id@),
        request::distinct(r.headers@),
        request::distinct(r.cookies@),
{
    let forwarded = read_header(&raw.headers, "x-forwarded-for");
    let client_ip = match &forwarded {
        Some(f) => resolve_client_ip(raw.socket_ip, Some(f.as_str()), trusted_hops),
        None => resolve_client_ip(raw.socket_ip, None, trusted_hops),
    };
    let (headers, header_order) = collect_headers(&raw.headers);
    let host = text_or_empty(headers.get("host"));
    let user_agent = text_or_empty(headers.get("user-agent"));
    let query = text_or_empty(raw.query.as_ref());
    let content_length = match headers.get("content-length") {
        Some(v) => parse_u64(v.as_str()),
        None => None,
    };
    let (cookies, cookie_order) = match headers.get("cookie") {
        Some(c) => (parse_cookie_header(c.as_str()), order_cookies(c.as_str())),
        None => {
            let none: Vec<String> = Vec::new();
            assert(none.deep_view() =~= cookie_names(seq![]));
            (TextMap::new(), none)
        },
    };
    let ja4h = fingerprint::compute(
        raw.method.as_str(),
        raw.version.as_str(),
        header_order.as_slice(),
        &headers,
        cookie_order.as_slice(),
        &cookies,
    );
    proof {
        reveal_strlit("");
        assert(text::strings(header_order@) =~= header_order.deep_view());
        assert(text::strings(cookie_order@) =~= cookie_order.deep_view());
    }
    RequestCtx {
        request_id,
        client_ip,
        method: raw.method.clone(),
        uri: raw.uri.clone(),
        path: raw.path.clone(),
        query,
        host,
        user_agent,
        http_version: raw.version.clone(),
        headers,
        header_order,
        cookie_order,
        cookies,
        body_preview: Vec::new(),
        content_length,
        country: None,
        ja4h,
        ja3: "".to_string(),
        ja4: "".to_string(),
    }
}

// ---------------------------------------------------------------------------
// The way of a request
// ---------------------------------------------------------------------------

/// What the proxy remembers of a request until it has ended.
#[derive(Debug)]
pub struct WafCtx {
    pub decision: Option<Decision>,
    pub handled_locally: bool,
    pub request_id: String,
    pub client_ip: String,
    /// The address that was counted as having one more request in flight.
    pub tracked_ip: Option<IpAddr>,
}

impl WafCtx {
    pub fn new() -> (r: WafCtx)
        ensures
            r.decision is None,
            !r.handled_locally,
            r.request_id@ == ""@,
            r.client_ip@ == ""@,
            r.tracked_ip is None,
    {
        WafCtx {
            decision: None,
            handled_locally: false,
            request_id: "".to_string(),
            client_ip: "".to_string(),
            tracked_ip: None,
        }
    }
}

/// The endpoints that the proxy answers itself, and everything else.
#[derive(Debug, Clone, Copy, PartialEq, Eq, Structural)]
pub enum Route {
    Verify,
    BicVerify,
    TurnstileVerify,
    Health,
    Inspect,
}

/// The endpoint that a request is for.
pub open spec fn route_for(path: Seq<char>, method: Seq<char>) -> Route {
    let post = text::equal_fold(method, "POST"@);
    if path == "/__2t1/verify"@ && post {
        Route::Verify
    } else if path == "/__2t1/bic-verify"@ && post {
        Route::BicVerify
    } else if path == "/__2t1/turnstile-verify"@ && post {
        Route::TurnstileVerify
    } else if path == "/__2t1/healthz"@ {
        Route::Health
    } else {
        Route::Inspect
    }
}

pub fn route(path: &str, method: &str) -> (r: Route)
    ensures
        r == route_for(path@, method@),
{
    let post = same_fold(method, "POST");
    if same_text(path, "/__2t1/verify") && post {
        Route::Verify
    } else if same_text(path, "/__2t1/bic-verify") && post {
        Route::BicVerify
    } else if same_text(path, "/__2t1/turnstile-verify") && post {
        Route::TurnstileVerify
    } else if same_text(path, "/__2t1/healthz") {
        Route::Health
    } else {
        Route::Inspect
    }
}

/// The answer where too many requests are in flight.
pub open spec fn overloaded() -> ReplyView {
    ReplyView::new(503, "text/plain"@, vstd::utf8::encode_utf8("overloaded\n"@)).with("connection"@, "close"@).with(
        "retry-after"@,
        "5"@,
    )
}

/// Whether the requests in flight have reached the ceiling.
pub open spec fn full(rt: runtime::RuntimeView, conns: Map<crate::table::Key, i64>) -> bool {
    rt.global_inflight_cap > 0 && connections::sum_of(conns) >= rt.global_inflight_cap
}

/// The state of the counters with one more failure.
pub open spec fn one_more_error(m: Metrics) -> Metrics {
    Metrics { upstream_errors: m.upstream_errors.wrapping_add(1), ..m }
}

/// Turns a request away where too many are in flight, before anything of it is read.
pub fn turn_away(engine: &mut Engine) -> (r: Option<Reply>)
    requires
        old(engine).wf(),
    ensures
        final(engine).wf(),
        final(engine)@ == old(engine)@,
        engine::kept_parts(*old(engine), *final(engine)),
        r is Some <==> full(old(engine).runtime@, old(engine).conns@),
        r matches Some(reply) ==> reply@ == overloaded() && final(engine).metrics == one_more_error(
            old(engine).metrics,
        ),
        r is None ==> *final(engine) == *old(engine),
{
    if engine.at_capacity() {
        engine.metrics.upstream_errors = engine.metrics.upstream_errors.wrapping_add(1);
        let out = Reply::new(503, "text/plain", bytes_of("overloaded\n")).with("connection", "close").with(
            "retry-after",
            "5",
        );
        Some(out)
    } else {
        None
    }
}

/// The state after a request has begun.
pub open spec fn begun(v: EngineView, ip: IpAddr) -> EngineView {
    EngineView {
        conns: connections::entered(v.conns, ip.spec_key()),
        subnets: subnet::begun(v.subnets, ip),
        ..v
    }
}

/// The state after a request has ended.
pub open spec fn ended(v: EngineView, ip: IpAddr) -> EngineView {
    EngineView { conns: connections::left(v.conns, ip.spec_key()), subnets: subnet::ended(v.subnets, ip), ..v }
}

/// Counts a request as in flight and notes what its end has to know.
pub fn begin(engine: &mut Engine, ctx: &mut WafCtx, req: &RequestCtx)
    requires
        old(engine).wf(),
        connections::sum_of(old(engine).conns@) < i64::MAX,
    ensures
        final(engine).wf(),
        final(engine)@ == begun(old(engine)@, req.client_ip),
        engine::kept_parts(*old(engine), *final(engine)),
        final(engine).metrics == old(engine).metrics,
        final(ctx).request_id@ == req.request_id@,
        final(ctx).client_ip@ == net::ip_text(req.client_ip),
        final(ctx).tracked_ip == Some(req.client_ip),
        final(ctx).decision == old(ctx).decision,
        final(ctx).handled_locally == old(ctx).handled_locally,
{
    ctx.request_id = req.request_id.clone();
    ctx.client_ip = req.client_ip.to_text();
    ctx.tracked_ip = Some(req.client_ip);
    let _count: i64 = engine.conns.inc(req.client_ip);
    engine.subnets.inc_inflight(req.client_ip);
    assert(engine@ =~= begun(old(engine)@, req.client_ip));
}

/// Takes a request out of the counts when it has ended.
pub fn finish(engine: &mut Engine, ctx: &WafCtx, failed: bool)
    requires
        old(engine).wf(),
    ensures
        final(engine).wf(),
        final(engine)@ == match ctx.tracked_ip {
            Some(ip) => ended(old(engine)@, ip),
            None => old(engine)@,
        },
        engine::kept_parts(*old(engine), *final(engine)),
        final(engine).metrics == if failed {
            one_more_error(old(engine).metrics)
        } else {
            old(engine).metrics
        },
{
    if let Some(ip) = ctx.tracked_ip {
        engine.conns.dec(ip);
        engine.subnets.dec_inflight(ip);
        assert(engine@ =~= ended(old(engine)@, ip));
    }
    if failed {
        engine.metrics.upstream_errors = engine.metrics.upstream_errors.wrapping_add(1);
    }
}

/// A request that has begun and ended leaves all counts of requests in flight as they were.
pub proof fn lemma_begin_finish(v: EngineView, ip: IpAddr, k: crate::table::Key)
    requires
        0 <= connections::count_at(v.conns, ip.spec_key()) < i64::MAX,
        0 <= subnet::flying(v.subnets.in_flight, subnet::key_of(ip)) < i64::MAX,
    ensures
        connections::count_at(ended(begun(v, ip), ip).conns, k) == connections::count_at(v.conns, k),
        subnet::flying(ended(begun(v, ip), ip).subnets.in_flight, k) == subnet::flying(v.subnets.in_flight, k),
{
    connections::lemma_enter_leave(v.conns, ip.spec_key(), k);
    subnet::lemma_begin_end(v.subnets, ip, k);
}

/// The rule of the first reason of a decision.
pub open spec fn first_rule(d: DecisionView) -> Option<Seq<char>> {
    if d.reasons.len() > 0 {
        Some(d.reasons[0].rule_id)
    } else {
        None
    }
}

pub open spec fn opt_seq(s: Option<String>) -> Option<Seq<char>> {
    match s {
        Some(t) => Some(t@),
        None => None,
    }
}

/// Decides on a request and counts the decision. `now_s` is the time of the counters.
pub fn inspect_at(engine: &mut Engine, ctx: &mut WafCtx, req: &RequestCtx, signals: &Signals, now_ms: u64, now_s: u64)
    requires
        old(engine).wf(),
    ensures
        final(engine).wf(),
        final(engine)@ == engine::after_request(old(engine)@, *req, signals@, now_ms),
        engine::kept_parts(*old(engine), *final(engine)),
        final(ctx).decision is Some,
        final(ctx).decision->0@ == engine::decision_on(old(engine)@, *req, signals@, now_ms),
        final(ctx).handled_locally == (old(ctx).handled_locally || final(ctx).decision->0.action != Action::Allow),
        final(ctx).request_id == old(ctx).request_id,
        final(ctx).client_ip == old(ctx).client_ip,
        final(ctx).tracked_ip == old(ctx).tracked_ip,
        metrics::recorded(
            Metrics { rate_limited: final(engine).metrics.rate_limited, ..old(engine).metrics },
            final(engine).metrics,
            now_s,
            final(ctx).decision->0.action,
            old(ctx).client_ip@,
            req.path@,
            opt_seq(req.country),
            first_rule(final(ctx).decision->0@),
        ),
{
    let d = engine.evaluate_at(req, signals, now_ms);
    let country = match &req.country {
        Some(c) => Some(c.as_str()),
        None => None,
    };
    let rule = if d.reasons.len() > 0 {
        assert(d@.reasons[0] == d.reasons@[0]@);
        Some(d.reasons[0].rule_id.as_str())
    } else {
        None
    };
    let ghost mid = engine@;
    engine.metrics.record_at(now_s, d.action, ctx.client_ip.as_str(), req.path.as_str(), country, rule);
    assert(engine@ =~= mid);
    if d.action != Action::Allow {
        ctx.handled_locally = true;
    }
    ctx.decision = Some(d);
}

// ---------------------------------------------------------------------------
// The answers
// ---------------------------------------------------------------------------

/// The body of the answer to a blocked request.
pub open spec fn block_text(d: DecisionView) -> Seq<char> {
    "{\"error\":\"blocked\",\"request_id\":"@ + json::json_text(d.request_id) + ",\"rule\":"@ + match first_rule(d) {
        Some(rule) => json::json_text(rule),
        None => "null"@,
    } + "}"@
}

/// The answer to a blocked request. One over its rate is told when to come back.
pub open spec fn block_reply(d: DecisionView) -> ReplyView {
    let plain = ReplyView::new(d.status, "application/json"@, vstd::utf8::encode_utf8(block_text(d)));
    if d.status == 429 {
        plain.with("retry-after"@, "10"@)
    } else {
        plain
    }
}

pub fn serve_block(d: &Decision) -> (r: Reply)
    ensures
        r@ == block_reply(d@),
{
    let rule = if d.reasons.len() > 0 {
        assert(d@.reasons[0] == d.reasons@[0]@);
        json_string(d.reasons[0].rule_id.as_str())
    } else {
        "null".to_string()
    };
    let body = cat5(
        "{\"error\":\"blocked\",\"request_id\":",
        json_string(d.request_id.as_str()).as_str(),
        ",\"rule\":",
        rule.as_str(),
        "}",
    );
    let plain = Reply::new(d.status, "application/json", bytes_of(body.as_str()));
    if d.status == 429 {
        plain.with("retry-after", "10")
    } else {
        plain
    }
}

/// The answer that shows the proxy to be alive.
pub fn serve_health() -> (r: Reply)
    ensures
        r@ == ReplyView::new(200, "text/plain; charset=utf-8"@, vstd::utf8::encode_utf8("ok\n"@)),
{
    Reply::new(200, "text/plain; charset=utf-8", bytes_of("ok\n"))
}

/// What a client in the tarpit is fed, a byte at a time.
pub const TARPIT_TEXT: &'static str = "please-wait-please-wait-please\n";

/// The pause before each byte, in milliseconds.
pub const TARPIT_PAUSE_MS: u64 = 4000;

/// The answer in the tarpit. It gives no length, since the body only drips.
pub open spec fn tarpit_reply() -> ReplyView {
    ReplyView::bare(200, vstd::utf8::encode_utf8(TARPIT_TEXT@)).with(
        "content-type"@,
        "text/plain; charset=utf-8"@,
    ).with("connection"@, "close"@).with("x-waf"@, "2t1"@)
}

pub fn serve_tarpit() -> (r: Reply)
    ensures
        r@ == tarpit_reply(),
{
    Reply::bare(200, bytes_of(TARPIT_TEXT)).with("content-type", "text/plain; charset=utf-8").with(
        "connection",
        "close",
    ).with("x-waf", "2t1")
}

/// The three tests that a challenged client can be given.
#[derive(Debug, Clone, Copy, PartialEq, Eq, Structural)]
pub enum TestKind {
    /// The silent integrity check.
    Bic,
    /// The captcha of an outside service.
    Captcha,
    /// The proof of work.
    Pow,
}

/// The test for a client: first the silent check, where it is on and not passed yet; then the
/// captcha, where it is wanted and set up; else the proof of work.
pub open spec fn test_for(bic_on: bool, bic_passed: bool, mode: ChallengeMode, site_key: Seq<char>) -> TestKind {
    if bic_on && !bic_passed {
        TestKind::Bic
    } else if mode != ChallengeMode::Pow && site_key.len() > 0 {
        TestKind::Captcha
    } else {
        TestKind::Pow
    }
}

pub fn choose_test(bic_on: bool, bic_passed: bool, mode: ChallengeMode, site_key: &str) -> (r: TestKind)
    ensures
        r == test_for(bic_on, bic_passed, mode, site_key@),
{
    proof {
        reveal_strlit("");
        assert(site_key@.len() == 0 ==> site_key@ =~= ""@);
    }
    if bic_on && !bic_passed {
        TestKind::Bic
    } else if mode != ChallengeMode::Pow && !same_text(site_key, "") {
        TestKind::Captcha
    } else {
        TestKind::Pow
    }
}

/// Whether a request carries a cookie of the silent check that holds for the address of the
/// connection.
pub open spec fn bic_passed(secret: Seq<u8>, now: u64, cookie_header: Option<Seq<char>>, socket: IpAddr) -> bool {
    match request::lookup(request::cookies_of(text::pieces(or_empty(cookie_header), ';')), bic::BIC_COOKIE_NAME@) {
        Some(value) => bic::cookie_accepted(secret, now, value, socket),
        None => false,
    }
}

/// A page that must not be stored, and what it is.
pub open spec fn page_reply(status: u16, page: Seq<char>, kind: Seq<char>) -> ReplyView {
    ReplyView::new(status, "text/html; charset=utf-8"@, vstd::utf8::encode_utf8(page)).with(
        "cache-control"@,
        "no-store, private"@,
    ).with("x-waf-action"@, kind)
}

fn serve_page(status: u16, page: &str, kind: &str) -> (r: Reply)
    ensures
        r@ == page_reply(status, page@, kind@),
{
    Reply::new(status, "text/html; charset=utf-8", bytes_of(page)).with("cache-control", "no-store, private").with(
        "x-waf-action",
        kind,
    )
}

/// What the challenged client asked for.
pub open spec fn original_of(raw: RawRequest) -> Seq<char> {
    match raw.target {
        Some(t) => t@,
        None => "/"@,
    }
}

/// The test that a challenged request gets.
pub open spec fn test_of(e: Engine, raw: RawRequest, now: u64) -> TestKind {
    test_for(
        e.runtime.defenses.bic,
        bic_passed(e.bic.spec_secret(), now, raw_value(raw.headers@, "cookie"@), socket_address(raw.socket_ip)),
        runtime::mode_of(e.runtime.challenge_mode),
        e.runtime.turnstile_site_key@,
    )
}

/// The answer to a challenged request.
pub open spec fn challenge_reply(
    e: Engine,
    raw: RawRequest,
    id: Seq<char>,
    logo: Seq<char>,
    now: u64,
    nanos: u128,
    salt: Seq<u8>,
) -> ReplyView {
    match test_of(e, raw, now) {
        TestKind::Bic => page_reply(
            200,
            bic::bic_page(bic::token_at(e.bic.spec_secret(), now, nanos, salt), id, original_of(raw)),
            "bic"@,
        ),
        TestKind::Captcha => page_reply(
            403,
            turnstile::captcha_page(
                turnstile::provider_of(e.runtime.turnstile_provider@),
                e.runtime.turnstile_site_key@,
                id,
                original_of(raw),
            ),
            "captcha"@,
        ),
        TestKind::Pow => page_reply(
            403,
            challenge::challenge_page(
                challenge::bound_token_at(
                    e.challenger.spec_secret(),
                    engine::difficulty_for(e.challenger.spec_difficulty(), engine::effective_level(e.runtime@)),
                    now,
                    nanos,
                    salt,
                ),
                id,
                logo,
            ),
            "challenge"@,
        ),
    }
}

/// Answers a challenged request at a given time.
pub fn serve_challenge_at(
    engine: &Engine,
    raw: &RawRequest,
    d: &Decision,
    logo: &str,
    now: u64,
    nanos: u128,
    salt: &[u8],
) -> (r: Reply)
    requires
        engine.wf(),
    ensures
        r@ == challenge_reply(*engine, *raw, d.request_id@, logo@, now, nanos, salt@),
{
    let cookie_header = text_or_empty(read_header(&raw.headers, "cookie").as_ref());
    let cookies = parse_cookie_header(cookie_header.as_str());
    let socket = match raw.socket_ip {
        Some(ip) => ip,
        None => IpAddr::V4(0),
    };
    let passed = match cookies.get(engine.bic.cookie_name()) {
        Some(c) => engine.bic.verify_cookie_at(now, c.as_str(), socket),
        None => false,
    };
    let original = match &raw.target {
        Some(t) => t.as_str(),
        None => "/",
    };
    let id = d.request_id.as_str();
    let site_key = engine.runtime.turnstile_site_key.as_str();
    match choose_test(engine.runtime.defenses.bic, passed, engine.runtime.challenge_mode_v(), site_key) {
        TestKind::Bic => {
            let token = engine.bic.issue_at(now, nanos, salt);
            serve_page(200, engine.bic.render_page(&token, id, original).as_str(), "bic")
        },
        TestKind::Captcha => {
            let provider = Provider::from_str(engine.runtime.turnstile_provider.as_str());
            serve_page(403, turnstile::render_page(provider, site_key, id, original).as_str(), "captcha")
        },
        TestKind::Pow => {
            let token = engine.challenger.issue_with_at(now, nanos, salt, engine.pow_difficulty_for_uam());
            serve_page(403, engine.challenger.render_page(&token, id, logo).as_str(), "challenge")
        },
    }
}

/// Answers a challenged request.
pub fn serve_challenge(engine: &Engine, raw: &RawRequest, d: &Decision, logo: &str, salt: &[u8]) -> (r: Reply)
    requires
        engine.wf(),
    ensures
        exists|now: u64, nanos: u128|
            r@ == #[trigger] challenge_reply(*engine, *raw, d.request_id@, logo@, now, nanos, salt@),
{
    let now: u64 = now_secs();
    let nanos: u128 = now_nanos();
    serve_challenge_at(engine, raw, d, logo, now, nanos, salt)
}

// ---------------------------------------------------------------------------
// The answers to the tests
// ---------------------------------------------------------------------------

/// How much of the body of each of the three answers is read.
pub const VERIFY_BODY: usize = 4096;

pub const BIC_BODY: usize = 1024;

pub const CAPTCHA_BODY: usize = 8192;

/// A solution of the proof of work, as a client sends it.
#[derive(Debug)]
pub struct Solution {
    pub challenge: String,
    pub nonce: String,
    pub signature: String,
    pub expires_at: u64,
    /// The difficulty that the page asked for.
    pub difficulty: u8,
}

/// A passed silent check, as a client sends it.
#[derive(Debug)]
pub struct BicProof {
    pub challenge: String,
    pub expires_at: u64,
    pub signature: String,
    pub proof_text: String,
}

/// The text that sets a cookie.
pub open spec fn cookie_setting(name: Seq<char>, value: Seq<char>, ttl: u64) -> Seq<char> {
    name + "="@ + value + "; Path=/; Max-Age="@ + num::dec_text(ttl as nat) + "; HttpOnly; SameSite=Lax"@
}

fn set_cookie(name: &str, value: &str, ttl: u64) -> (r: String)
    ensures
        r@ == cookie_setting(name@, value@, ttl),
{
    cat6(name, "=", value, "; Path=/; Max-Age=", dec(ttl).as_str(), "; HttpOnly; SameSite=Lax")
}

/// The answer to a passed test: nothing but the cookie.
pub open spec fn passed_reply(cookie: Seq<char>) -> ReplyView {
    ReplyView::new(204, "text/plain"@, seq![]).with("set-cookie"@, cookie)
}

fn serve_passed(cookie: &str) -> (r: Reply)
    ensures
        r@ == passed_reply(cookie@),
{
    let out = Reply::new(204, "text/plain", Vec::new()).with("set-cookie", cookie);
    assert(out@ =~= passed_reply(cookie@));
    out
}

/// The answer to a failed test.
pub open spec fn failed_reply(status: u16, body: Seq<char>) -> ReplyView {
    ReplyView::new(status, "application/json"@, vstd::utf8::encode_utf8(body))
}

fn serve_failed(status: u16, body: &str) -> (r: Reply)
    ensures
        r@ == failed_reply(status, body@),
{
    Reply::new(status, "application/json", bytes_of(body))
}

/// The answer to a client that is given a clearance at `now`.
pub open spec fn cleared_reply(e: Engine, now: u64) -> ReplyView {
    passed_reply(
        cookie_setting(
            e.challenger.spec_name(),
            challenge::clearance_text(
                e.challenger.spec_secret(),
                challenge::later(now, e.challenger.spec_ttl()),
            ),
            e.challenger.spec_ttl(),
        ),
    )
}

fn serve_cleared(engine: &Engine, now: u64) -> (r: Reply)
    ensures
        r@ == cleared_reply(*engine, now),
{
    let value = engine.challenger.mint_clearance_at(now);
    let cookie = set_cookie(engine.challenger.cookie_name(), value.as_str(), engine.challenger.cookie_ttl());
    serve_passed(cookie.as_str())
}

/// Whether a solution is accepted at `now`.
pub open spec fn solved(e: Engine, s: Option<Solution>, now: u64) -> bool {
    match s {
        Some(s) => challenge::bound_verdict(
            e.challenger.spec_secret(),
            now,
            s.challenge@,
            s.nonce@,
            s.signature@,
            s.expires_at,
            s.difficulty,
        ) is Ok,
        None => false,
    }
}

/// The answer to a solution of the proof of work; `None` stands for what could not be read.
pub open spec fn solution_reply(e: Engine, s: Option<Solution>, now: u64) -> ReplyView {
    if solved(e, s, now) {
        cleared_reply(e, now)
    } else {
        failed_reply(400, "{\"error\":\"verification failed\"}"@)
    }
}

pub fn handle_verify_at(engine: &Engine, s: &Option<Solution>, now: u64) -> (r: Reply)
    requires
        engine.wf(),
    ensures
        r@ == solution_reply(*engine, *s, now),
{
    let ok = match s {
        Some(s) => engine.challenger.verify_with_at(
            now,
            s.challenge.as_str(),
            s.nonce.as_str(),
            s.signature.as_str(),
            s.expires_at,
            s.difficulty,
        ).is_ok(),
        None => false,
    };
    if ok {
        serve_cleared(engine, now)
    } else {
        serve_failed(400, "{\"error\":\"verification failed\"}")
    }
}

pub fn handle_verify(engine: &Engine, s: &Option<Solution>) -> (r: Reply)
    requires
        engine.wf(),
    ensures
        exists|now: u64| r@ == #[trigger] solution_reply(*engine, *s, now),
{
    handle_verify_at(engine, s, now_secs())
}

/// The answer to a passed silent check; `None` stands for what could not be read.
pub open spec fn bic_reply(e: Engine, p: Option<BicProof>, ip: IpAddr, now: u64) -> ReplyView {
    let ok = match p {
        Some(p) => bic::proof_verdict(
            e.bic.spec_secret(),
            now,
            p.challenge@,
            p.expires_at,
            p.signature@,
            p.proof_text@,
        ) is Ok,
        None => false,
    };
    if ok {
        passed_reply(
            cookie_setting(
                bic::BIC_COOKIE_NAME@,
                bic::cookie_text(e.bic.spec_secret(), challenge::later(now, bic::COOKIE_TTL_SECS), ip),
                bic::COOKIE_TTL_SECS,
            ),
        )
    } else {
        failed_reply(400, "{\"error\":\"bic verification failed\"}"@)
    }
}

pub fn handle_bic_verify_at(engine: &Engine, p: &Option<BicProof>, ip: IpAddr, now: u64) -> (r: Reply)
    ensures
        r@ == bic_reply(*engine, *p, ip, now),
{
    let ok = match p {
        Some(p) => engine.bic.verify_proof_at(
            now,
            p.challenge.as_str(),
            p.expires_at,
            p.signature.as_str(),
            p.proof_text.as_str(),
        ).is_ok(),
        None => false,
    };
    if ok {
        let (name, value) = engine.bic.mint_at(now, ip);
        let cookie = set_cookie(name.as_str(), value.as_str(), engine.bic.ttl());
        serve_passed(cookie.as_str())
    } else {
        serve_failed(400, "{\"error\":\"bic verification failed\"}")
    }
}

pub fn handle_bic_verify(engine: &Engine, p: &Option<BicProof>, ip: IpAddr) -> (r: Reply)
    ensures
        exists|now: u64| r@ == #[trigger] bic_reply(*engine, *p, ip, now),
{
    handle_bic_verify_at(engine, p, ip, now_secs())
}

/// A question to the captcha service.
#[derive(Debug)]
pub struct CaptchaCall {
    pub provider: Provider,
    pub secret: String,
    pub token: String,
    pub remote_ip: String,
}

/// What a solved captcha leads to: a question to its service, or an answer at once where none is
/// set up.
pub fn captcha_call(engine: &Engine, token: &str, ip: IpAddr) -> (r: Result<CaptchaCall, Reply>)
    ensures
        r is Ok <==> engine.runtime.turnstile_secret@.len() > 0,
        r matches Ok(c) ==> c.provider == turnstile::provider_of(engine.runtime.turnstile_provider@) && c.secret@
            == engine.runtime.turnstile_secret@ && c.token@ == token@ && c.remote_ip@ == net::ip_text(ip),
        r matches Err(reply) ==> reply@ == failed_reply(503, "{\"error\":\"captcha not configured\"}"@),
{
    let secret = engine.runtime.turnstile_secret.as_str();
    proof {
        reveal_strlit("");
        assert(secret@.len() == 0 ==> secret@ =~= ""@);
    }
    if same_text(secret, "") {
        Err(serve_failed(503, "{\"error\":\"captcha not configured\"}"))
    } else {
        Ok(
            CaptchaCall {
                provider: Provider::from_str(engine.runtime.turnstile_provider.as_str()),
                secret: secret.to_string(),
                token: token.to_string(),
                remote_ip: ip.to_text(),
            },
        )
    }
}

/// The answer to a solved captcha, once its service has said whether it is. A client that passed
/// is as good as one that has done the proof of work.
pub open spec fn captcha_reply(e: Engine, passed: bool, now: u64) -> ReplyView {
    if passed {
        cleared_reply(e, now)
    } else {
        failed_reply(403, "{\"error\":\"captcha verification failed\"}"@)
    }
}

pub fn handle_turnstile_verify_at(engine: &Engine, passed: bool, now: u64) -> (r: Reply)
    ensures
        r@ == captcha_reply(*engine, passed, now),
{
    if passed {
        serve_cleared(engine, now)
    } else {
        serve_failed(403, "{\"error\":\"captcha verification failed\"}")
    }
}

pub fn handle_turnstile_verify(engine: &Engine, passed: bool) -> (r: Reply)
    ensures
        exists|now: u64| r@ == #[trigger] captcha_reply(*engine, passed, now),
{
    handle_turnstile_verify_at(engine, passed, now_secs())
}

// ---------------------------------------------------------------------------
// Headers for the upstream and for the client
// ---------------------------------------------------------------------------

/// The headers that the upstream is given: the id of the request, and the address of the client
/// in place of whatever the client claims.
pub open spec fn upstream_headers_of(id: Seq<char>, client: Seq<char>, tls: bool) -> Seq<request::Pair> {
    seq![
        ("x-waf-request-id"@, id),
        ("x-real-ip"@, client),
        ("x-forwarded-for"@, client),
        (
            "x-forwarded-proto"@,
            if tls {
                "https"@
            } else {
                "http"@
            },
        ),
    ]
}

pub open spec fn pair_texts(list: Seq<(&'static str, String)>) -> Seq<request::Pair> {
    Seq::new(list.len(), |i: int| (list[i].0@, list[i].1@))
}

pub fn upstream_headers(ctx: &WafCtx, tls: bool) -> (r: Vec<(&'static str, String)>)
    ensures
        pair_texts(r@) == upstream_headers_of(ctx.request_id@, ctx.client_ip@, tls),
{
    let scheme = if tls {
        "https"
    } else {
        "http"
    };
    let out: Vec<(&'static str, String)> = vec![
        ("x-waf-request-id", ctx.request_id.clone()),
        ("x-real-ip", ctx.client_ip.clone()),
        ("x-forwarded-for", ctx.client_ip.clone()),
        ("x-forwarded-proto", scheme.to_string()),
    ];
    assert(pair_texts(out@) =~= upstream_headers_of(ctx.request_id@, ctx.client_ip@, tls));
    out
}

/// The headers that are set on every answer of the upstream.
pub const RESPONSE_HEADERS: [(&'static str, &'static str); 3] = [
    ("x-waf", "2t1"),
    ("x-content-type-options", "nosniff"),
    ("referrer-policy", "strict-origin-when-cross-origin"),
];

// ---------------------------------------------------------------------------
// The whole way
// ---------------------------------------------------------------------------

/// What is done with a request next.
#[derive(Debug)]
pub enum FilterStep {
    /// The request is answered.
    Answer(Reply),
    /// The request is answered a byte at a time.
    Drip(Reply),
    /// The body is read as a solution of the proof of work.
    ReadSolution,
    /// The body is read as a passed silent check.
    ReadBicProof,
    /// The body is read as a solved captcha.
    ReadCaptcha,
    /// The request goes on to the upstream.
    Forward,
}

/// The times and the salt that the answer to a request rests on.
#[derive(Debug, Clone, Copy, PartialEq, Eq, Structural)]
pub struct Moment {
    /// The time of the decision, in milliseconds.
    pub now_ms: u64,
    /// The time of the counters and of the tests, in seconds.
    pub now_s: u64,
    /// The time that tokens are made of.
    pub nanos: u128,
}

/// Whether a step is what a decision leads to in the engine `e`.
pub open spec fn carries_out(
    step: FilterStep,
    d: DecisionView,
    e: Engine,
    raw: RawRequest,
    logo: Seq<char>,
    m: Moment,
    salt: Seq<u8>,
) -> bool {
    match d.action {
        Action::Allow => step is Forward,
        Action::Block => step matches FilterStep::Answer(r) && r@ == block_reply(d),
        Action::Challenge => step matches FilterStep::Answer(r) && r@ == challenge_reply(
            e,
            raw,
            d.request_id,
            logo,
            m.now_s,
            m.nanos,
            salt,
        ),
        Action::Tarpit => step matches FilterStep::Drip(r) && r@ == tarpit_reply(),
    }
}

/// Whether a step is what one of the reserved endpoints leads to.
pub open spec fn reserved_step(step: FilterStep, route: Route) -> bool {
    match route {
        Route::Verify => step is ReadSolution,
        Route::BicVerify => step is ReadBicProof,
        Route::TurnstileVerify => step is ReadCaptcha,
        Route::Health => step matches FilterStep::Answer(r) && r@ == ReplyView::new(
            200,
            "text/plain; charset=utf-8"@,
            vstd::utf8::encode_utf8("ok\n"@),
        ),
        Route::Inspect => false,
    }
}

/// Whether `after` and `step` are what a request, read as `req`, makes of the engine `before`
/// that was not full.
pub open spec fn filtered(
    before: Engine,
    after: Engine,
    ctx: WafCtx,
    step: FilterStep,
    raw: RawRequest,
    req: RequestCtx,
    signals: engine::SignalsView,
    logo: Seq<char>,
    m: Moment,
    salt: Seq<u8>,
) -> bool {
    let v = begun(before@, req.client_ip);
    let route = route_for(req.path@, req.method@);
    &&& ctx.request_id@ == req.request_id@
    &&& ctx.client_ip@ == net::ip_text(req.client_ip)
    &&& ctx.tracked_ip == Some(req.client_ip)
    &&& engine::kept_parts(before, after)
    &&& if route == Route::Inspect {
        &&& after@ == engine::after_request(v, req, signals, m.now_ms)
        &&& ctx.decision is Some
        &&& ctx.decision->0@ == engine::decision_on(v, req, signals, m.now_ms)
        &&& ctx.handled_locally == (ctx.decision->0.action != Action::Allow)
        &&& metrics::recorded(
            Metrics { rate_limited: after.metrics.rate_limited, ..before.metrics },
            after.metrics,
            m.now_s,
            ctx.decision->0.action,
            ctx.client_ip@,
            req.path@,
            opt_seq(req.country),
            first_rule(ctx.decision->0@),
        )
        &&& carries_out(step, ctx.decision->0@, after, raw, logo, m, salt)
    } else {
        &&& after@ == v
        &&& after.metrics == before.metrics
        &&& ctx.decision is None
        &&& ctx.handled_locally
        &&& reserved_step(step, route)
    }
}

/// Takes a request from its arrival to what is done with it: turned away where too many are in
/// flight, counted, and then answered by a reserved endpoint or by the decision of the engine.
pub fn request_filter_at(
    engine: &mut Engine,
    ctx: &mut WafCtx,
    raw: &RawRequest,
    request_id: String,
    signals: &Signals,
    logo: &str,
    m: Moment,
    salt: &[u8],
) -> (r: FilterStep)
    requires
        old(engine).wf(),
        connections::sum_of(old(engine).conns@) < i64::MAX,
        old(ctx).decision is None,
        !old(ctx).handled_locally,
    ensures
        final(engine).wf(),
        full(old(engine).runtime@, old(engine).conns@) ==> (r matches FilterStep::Answer(reply) && reply@
            == overloaded()) && final(engine)@ == old(engine)@ && final(engine).metrics == one_more_error(
            old(engine).metrics,
        ) && engine::kept_parts(*old(engine), *final(engine)) && *final(ctx) == *old(ctx),
        !full(old(engine).runtime@, old(engine).conns@) ==> exists|req: RequestCtx|
            describes(req, *raw, old(engine).cfg.server.trusted_proxy_hops, request_id@) && #[trigger] filtered(
                *old(engine),
                *final(engine),
                *final(ctx),
                r,
                *raw,
                req,
                signals@,
                logo@,
                m,
                salt@,
            ),
{
    if let Some(reply) = turn_away(engine) {
        return FilterStep::Answer(reply);
    }
    let req = build_request_ctx(raw, engine.cfg.server.trusted_proxy_hops, request_id);
    begin(engine, ctx, &req);
    let way = route(req.path.as_str(), req.method.as_str());
    if way != Route::Inspect {
        ctx.handled_locally = true;
        let step = match way {
            Route::Verify => FilterStep::ReadSolution,
            Route::BicVerify => FilterStep::ReadBicProof,
            Route::TurnstileVerify => FilterStep::ReadCaptcha,
            _ => FilterStep::Answer(serve_health()),
        };
        assert(filtered(*old(engine), *engine, *ctx, step, *raw, req, signals@, logo@, m, salt@));
        return step;
    }
    inspect_at(engine, ctx, &req, signals, m.now_ms, m.now_s);
    let step = match &ctx.decision {
        Some(d) => carry_out(engine, d, raw, logo, m, salt),
        None => FilterStep::Forward,
    };
    assert(filtered(*old(engine), *engine, *ctx, step, *raw, req, signals@, logo@, m, salt@));
    step
}

fn carry_out(engine: &Engine, d: &Decision, raw: &RawRequest, logo: &str, m: Moment, salt: &[u8]) -> (r: FilterStep)
    requires
        engine.wf(),
    ensures
        carries_out(r, d@, *engine, *raw, logo@, m, salt@),
{
    match d.action {
        Action::Allow => FilterStep::Forward,
        Action::Block => FilterStep::Answer(serve_block(d)),
        Action::Challenge => FilterStep::Answer(serve_challenge_at(engine, raw, d, logo, m.now_s, m.nanos, salt)),
        Action::Tarpit => FilterStep::Drip(serve_tarpit()),
    }
}

// ---------------------------------------------------------------------------
// Laws
// ---------------------------------------------------------------------------

/// A client that solves the test on the page that it was given, in time, is given a clearance,
/// whatever the difficulty and whatever the level has become since.
pub proof fn lemma_solution_clears(
    page: Engine,
    e: Engine,
    issued: u64,
    nanos: u128,
    salt: Seq<u8>,
    s: Solution,
    now: u64,
)
    requires
        page.challenger.wf(),
        e.challenger.spec_secret() == page.challenger.spec_secret(),
        ({
            let level = engine::effective_level(page.runtime@);
            let difficulty = engine::difficulty_for(page.challenger.spec_difficulty(), level);
            let t = challenge::bound_token_at(page.challenger.spec_secret(), difficulty, issued, nanos, salt);
            &&& s.challenge@ == t.challenge
            &&& s.signature@ == t.signature
            &&& s.expires_at == t.expires_at
            &&& s.difficulty == t.difficulty
            &&& challenge::pow_solved(t.challenge, s.nonce@, difficulty)
            &&& now <= t.expires_at
        }),
    ensures
        solution_reply(e, Some(s), now) == cleared_reply(e, now),
{
    let difficulty = engine::difficulty_for(
        page.challenger.spec_difficulty(),
        engine::effective_level(page.runtime@),
    );
    challenge::lemma_bound_verifies(e.challenger.spec_secret(), difficulty, issued, nanos, salt, now, s.nonce@);
}

/// A solution is accepted for the difficulty that its signature stands for, and for no less work:
/// the nonce solves the challenge at the difficulty that was signed with it.
pub proof fn lemma_no_less_work(e: Engine, s: Solution, now: u64)
    requires
        solved(e, Some(s), now),
    ensures
        s.signature@ == challenge::bound_tag(
            e.challenger.spec_secret(),
            s.challenge@,
            s.expires_at,
            s.difficulty,
        ),
        challenge::pow_solved(s.challenge@, s.nonce@, s.difficulty),
{
}

/// The cookie that a cleared client is given opens the way until its time is over: the engine
/// takes it for a clearance up to then, and no longer.
pub proof fn lemma_cookie_opens(e: Engine, ctx: RequestCtx, now: u64, later: u64)
    requires
        request::lookup(ctx.cookies@, e.challenger.spec_name()) == Some(
            challenge::clearance_text(e.challenger.spec_secret(), challenge::later(now, e.challenger.spec_ttl())),
        ),
    ensures
        engine::cleared(e@, ctx, later) <==> later < challenge::later(now, e.challenger.spec_ttl()),
{
    challenge::lemma_clearance_roundtrip(
        e.challenger.spec_secret(),
        challenge::later(now, e.challenger.spec_ttl()),
        later,
    );
}

/// The cookie of the silent check holds for the address that passed it, until its time is over:
/// up to then the client is not given the check again.
pub proof fn lemma_bic_not_repeated(secret: Seq<u8>, header: Seq<char>, ip: IpAddr, now: u64, later: u64)
    requires
        request::lookup(request::cookies_of(text::pieces(header, ';')), bic::BIC_COOKIE_NAME@) == Some(
            bic::cookie_text(secret, challenge::later(now, bic::COOKIE_TTL_SECS), ip),
        ),
    ensures
        bic_passed(secret, later, Some(header), ip) <==> later < challenge::later(now, bic::COOKIE_TTL_SECS),
{
    bic::lemma_cookie_roundtrip(secret, challenge::later(now, bic::COOKIE_TTL_SECS), ip, later, ip);
}

/// A clearance needs no care in a cookie.
pub proof fn lemma_clearance_plain(secret: Seq<u8>, exp: u64)
    ensures
        request::plain_text(challenge::clearance_text(secret, exp)),
{
    let number = num::dec_text(exp as nat);
    let tag = challenge::clearance_tag(secret, exp);
    let s = challenge::clearance_text(secret, exp);
    reveal_strlit(".");
    num::lemma_dec_digits(exp as nat);
    assert forall|i: int| 0 <= i < s.len() implies request::plain_char(#[trigger] s[i]) by {
        if i < number.len() {
            assert(s[i] == number[i]);
        } else if i > number.len() {
            assert(s[i] == tag[i - number.len() - 1]);
            crypto::lemma_tag_chars(secret, "clr|"@ + number, i - number.len() - 1);
        }
    }
}

/// The client that sends back the cookie that it was given is taken for cleared: from the bytes
/// of its next request, up to the end of the clearance and no longer.
pub proof fn lemma_next_request_cleared(
    e: Engine,
    raw: RawRequest,
    ctx: RequestCtx,
    hops: u8,
    id: Seq<char>,
    now: u64,
    later: u64,
)
    requires
        request::plain_text(e.challenger.spec_name()),
        describes(ctx, raw, hops, id),
        request::lookup(first_values(raw.headers@), "cookie"@) == Some(
            request::cookie_pair(
                e.challenger.spec_name(),
                challenge::clearance_text(
                    e.challenger.spec_secret(),
                    challenge::later(now, e.challenger.spec_ttl()),
                ),
            ),
        ),
    ensures
        engine::cleared(e@, ctx, later) <==> later < challenge::later(now, e.challenger.spec_ttl()),
{
    let name = e.challenger.spec_name();
    let exp = challenge::later(now, e.challenger.spec_ttl());
    let value = challenge::clearance_text(e.challenger.spec_secret(), exp);
    lemma_clearance_plain(e.challenger.spec_secret(), exp);
    request::lemma_one_cookie(name, value);
    lemma_cookie_opens(e, ctx, now, later);
}

/// A header that came keeps its value, whatever comes behind it; one that is new has the value that
/// came under its name, in whatever case, if it can be read.
pub proof fn lemma_first_value(headers: Seq<RawHeader>, more: RawHeader, name: Seq<char>)
    ensures
        request::lookup(first_values(seq![]), name) is None,
        ({
            let before = request::lookup(first_values(headers), name);
            let after = request::lookup(first_values(headers.push(more)), name);
            &&& before is Some ==> after == before
            &&& before is None && text::lower_text(more.name@) == name && more.value is Some ==> after == Some(
                more.value->0@,
            )
            &&& before is None && !(text::lower_text(more.name@) == name && more.value is Some) ==> after is None
        }),
{
    assert(headers.push(more).drop_last() =~= headers);
    if more.value is Some {
        request::lemma_put(first_values(headers), text::lower_text(more.name@), more.value->0@);
    }
}

/// The value that is read of a header is that of the first one of its name, if that can be read.
pub proof fn lemma_raw_value(headers: Seq<RawHeader>, name: Seq<char>, i: int)
    requires
        0 <= i < headers.len(),
        text::lower_text(headers[i].name@) == name,
        forall|j: int| 0 <= j < i ==> text::lower_text((#[trigger] headers[j]).name@) != name,
    ensures
        headers[i].value is Some ==> raw_value(headers, name) == Some(headers[i].value->0@),
        headers[i].value is None ==> raw_value(headers, name) is None,
    decreases headers.len(),
{
    if i > 0 {
        let rest = headers.drop_first();
        assert(text::lower_text(headers[0].name@) != name);
        assert forall|j: int| 0 <= j < i - 1 implies text::lower_text((#[trigger] rest[j]).name@) != name by {
            assert(rest[j] == headers[j + 1]);
        }
        lemma_raw_value(rest, name, i - 1);
    }
}

/// Without trusted proxies the address is that of the connection, whatever the client claims. With
/// `hops` of them it is the part of the chain that has `hops - 1` parts behind it, and the address
/// of the connection where that part names none.
pub proof fn lemma_client_exactly(
    socket: Option<IpAddr>,
    forwarded: Option<Seq<char>>,
    front: Seq<Seq<char>>,
    part: Seq<char>,
    back: Seq<Seq<char>>,
    hops: u8,
)
    ensures
        socket is Some ==> resolved_ip(socket, forwarded, 0) == socket->0,
        socket is Some ==> resolved_ip(socket, None, hops) == socket->0,
        socket is None ==> resolved_ip(socket, None, hops) == IpAddr::V4(0),
        hops == back.len() + 1 ==> {
            let ip = client_of(socket_address(socket), front + seq![part] + back, hops);
            match net::parsed_ip(text::trimmed(part)) {
                Some(named) => ip == named,
                None => ip == socket_address(socket),
            }
        },
{
    let chain = front + seq![part] + back;
    assert(chain[front.len() as int] == part);
}

/// A chain shorter than the trusted proxies gives its first part.
pub proof fn lemma_short_chain(socket: IpAddr, chain: Seq<Seq<char>>, hops: u8)
    requires
        0 < chain.len() <= hops,
        net::parsed_ip(text::trimmed(chain[0])) is Some,
    ensures
        client_of(socket, chain, hops) == net::parsed_ip(text::trimmed(chain[0]))->0,
{
}

/// The reserved endpoints, each for its own path; but for the one that shows the proxy to be alive they
/// take POST alone, in whatever case.
pub proof fn lemma_routes(path: Seq<char>, method: Seq<char>)
    ensures
        ({
            let r = route_for(path, method);
            let post = text::equal_fold(method, "POST"@);
            &&& r == Route::Verify <==> path == "/__2t1/verify"@ && post
            &&& r == Route::BicVerify <==> path == "/__2t1/bic-verify"@ && post
            &&& r == Route::TurnstileVerify <==> path == "/__2t1/turnstile-verify"@ && post
            &&& r == Route::Health <==> path == "/__2t1/healthz"@
        }),
{
    reveal_strlit("/__2t1/verify");
    reveal_strlit("/__2t1/bic-verify");
    reveal_strlit("/__2t1/turnstile-verify");
    reveal_strlit("/__2t1/healthz");
    assert("/__2t1/verify"@.len() == 13 && "/__2t1/bic-verify"@.len() == 17);
    assert("/__2t1/turnstile-verify"@.len() == 23 && "/__2t1/healthz"@.len() == 14);
}

/// The proxy is full exactly from its ceiling on, and without one never; it then asks to come back
/// in five seconds.
pub proof fn lemma_full_exactly(rt: runtime::RuntimeView, conns: Map<crate::table::Key, i64>)
    ensures
        rt.global_inflight_cap == 0 ==> !full(rt, conns),
        rt.global_inflight_cap > 0 ==> (full(rt, conns) <==> connections::sum_of(conns) >= rt.global_inflight_cap),
        overloaded().status == 503,
        request::lookup(overloaded().headers, "retry-after"@) == Some("5"@),
        request::lookup(overloaded().headers, "connection"@) == Some("close"@),
{
    reveal_strlit("connection");
    reveal_strlit("retry-after");
    assert("connection"@.len() == 10 && "retry-after"@.len() == 11);
    let a = ReplyView::new(503, "text/plain"@, vstd::utf8::encode_utf8("overloaded\n"@));
    request::lemma_put(a.headers, "connection"@, "close"@);
    let b = a.with("connection"@, "close"@);
    request::lemma_put(b.headers, "retry-after"@, "5"@);
}

/// A blocked request gets the status of its decision; exactly one over its rate is told to come
/// back in ten seconds.
pub proof fn lemma_block_answer(d: DecisionView)
    ensures
        block_reply(d).status == d.status,
        block_reply(d).body == vstd::utf8::encode_utf8(block_text(d)),
        request::lookup(block_reply(d).headers, "content-type"@) == Some("application/json"@),
        request::lookup(block_reply(d).headers, "cache-control"@) == Some("no-store, private"@),
        d.status == 429 ==> request::lookup(block_reply(d).headers, "retry-after"@) == Some("10"@),
        d.status != 429 ==> request::lookup(block_reply(d).headers, "retry-after"@) is None,
{
    reveal_strlit("retry-after");
    reveal_strlit("content-type");
    reveal_strlit("content-length");
    reveal_strlit("x-waf");
    reveal_strlit("cache-control");
    assert("content-type"@.len() == 12 && "content-length"@.len() == 14 && "x-waf"@.len() == 5);
    assert("cache-control"@.len() == 13 && "retry-after"@.len() == 11);
    let body = vstd::utf8::encode_utf8(block_text(d));
    crate::http::lemma_reply_headers(d.status, "application/json"@, body);
    let plain = ReplyView::new(d.status, "application/json"@, body);
    request::lemma_put(plain.headers, "retry-after"@, "10"@);
}

/// The silent check comes first where it is on, and only once; a captcha is given where one is
/// wanted and set up, and the proof of work everywhere else.
pub proof fn lemma_test_exactly(bic_on: bool, passed: bool, mode: ChallengeMode, site_key: Seq<char>)
    ensures
        test_for(bic_on, passed, mode, site_key) == TestKind::Bic <==> bic_on && !passed,
        test_for(bic_on, passed, mode, site_key) == TestKind::Captcha <==> (passed || !bic_on) && mode
            != ChallengeMode::Pow && site_key.len() > 0,
        test_for(bic_on, passed, mode, site_key) == TestKind::Pow <==> (passed || !bic_on) && (mode
            == ChallengeMode::Pow || site_key.len() == 0),
{
}

proof fn lemma_page(status: u16, page: Seq<char>, kind: Seq<char>)
    ensures
        page_reply(status, page, kind).status == status,
        page_reply(status, page, kind).body == vstd::utf8::encode_utf8(page),
        request::lookup(page_reply(status, page, kind).headers, "cache-control"@) == Some("no-store, private"@),
        request::lookup(page_reply(status, page, kind).headers, "x-waf-action"@) == Some(kind),
{
    reveal_strlit("cache-control");
    reveal_strlit("x-waf-action");
    assert("cache-control"@.len() == 13 && "x-waf-action"@.len() == 12);
    let a = ReplyView::new(status, "text/html; charset=utf-8"@, vstd::utf8::encode_utf8(page));
    request::lemma_put(a.headers, "cache-control"@, "no-store, private"@);
    let b = a.with("cache-control"@, "no-store, private"@);
    request::lemma_put(b.headers, "x-waf-action"@, kind);
}

/// The page of the silent check comes with the status of success, the two others as forbidden, and
/// none of them may be stored.
pub proof fn lemma_page_status(
    e: Engine,
    raw: RawRequest,
    id: Seq<char>,
    logo: Seq<char>,
    now: u64,
    nanos: u128,
    salt: Seq<u8>,
)
    ensures
        ({
            let r = challenge_reply(e, raw, id, logo, now, nanos, salt);
            let kind = request::lookup(r.headers, "x-waf-action"@);
            &&& test_of(e, raw, now) == TestKind::Bic ==> r.status == 200 && kind == Some("bic"@)
            &&& test_of(e, raw, now) == TestKind::Captcha ==> r.status == 403 && kind == Some("captcha"@)
            &&& test_of(e, raw, now) == TestKind::Pow ==> r.status == 403 && kind == Some("challenge"@)
            &&& request::lookup(r.headers, "cache-control"@) == Some("no-store, private"@)
        }),
{
    lemma_page(
        200,
        bic::bic_page(bic::token_at(e.bic.spec_secret(), now, nanos, salt), id, original_of(raw)),
        "bic"@,
    );
    lemma_page(
        403,
        turnstile::captcha_page(
            turnstile::provider_of(e.runtime.turnstile_provider@),
            e.runtime.turnstile_site_key@,
            id,
            original_of(raw),
        ),
        "captcha"@,
    );
    lemma_page(
        403,
        challenge::challenge_page(
            challenge::bound_token_at(
                e.challenger.spec_secret(),
                engine::difficulty_for(e.challenger.spec_difficulty(), engine::effective_level(e.runtime@)),
                now,
                nanos,
                salt,
            ),
            id,
            logo,
        ),
        "challenge"@,
    );
}

proof fn lemma_answer(status: u16, body: Seq<char>, cookie: Seq<char>)
    ensures
        passed_reply(cookie).status == 204,
        passed_reply(cookie).body.len() == 0,
        request::lookup(passed_reply(cookie).headers, "set-cookie"@) == Some(cookie),
        failed_reply(status, body).status == status,
        request::lookup(failed_reply(status, body).headers, "set-cookie"@) is None,
{
    reveal_strlit("set-cookie");
    reveal_strlit("content-type");
    reveal_strlit("content-length");
    reveal_strlit("x-waf");
    reveal_strlit("cache-control");
    assert("content-type"@.len() == 12 && "content-length"@.len() == 14 && "x-waf"@.len() == 5);
    assert("cache-control"@.len() == 13 && "set-cookie"@.len() == 10);
    crate::http::lemma_reply_headers(status, "application/json"@, vstd::utf8::encode_utf8(body));
    let a = ReplyView::new(204, "text/plain"@, seq![]);
    request::lemma_put(a.headers, "set-cookie"@, cookie);
}

/// Only a test that was passed is answered with a cookie: the proof of work and the captcha with a
/// clearance of the configured lifetime, the silent check with a cookie of half an hour. What failed
/// is refused.
pub proof fn lemma_cookies_earned(
    e: Engine,
    s: Option<Solution>,
    p: Option<BicProof>,
    passed: bool,
    ip: IpAddr,
    now: u64,
)
    requires
        now + 1800 <= u64::MAX,
        now + e.challenger.spec_ttl() <= u64::MAX,
    ensures
        ({
            let ttl = e.challenger.spec_ttl();
            let clearance = e.challenger.spec_name() + "="@ + challenge::clearance_text(
                e.challenger.spec_secret(),
                (now + ttl) as u64,
            ) + "; Path=/; Max-Age="@ + num::dec_text(ttl as nat) + "; HttpOnly; SameSite=Lax"@;
            let silent = "__2t1_bic"@ + "="@ + bic::cookie_text(e.bic.spec_secret(), (now + 1800) as u64, ip)
                + "; Path=/; Max-Age="@ + num::dec_text(1800) + "; HttpOnly; SameSite=Lax"@;
            let a = solution_reply(e, s, now);
            let b = captcha_reply(e, passed, now);
            let c = bic_reply(e, p, ip, now);
            let proved = p is Some && bic::proof_verdict(
                e.bic.spec_secret(),
                now,
                p->0.challenge@,
                p->0.expires_at,
                p->0.signature@,
                p->0.proof_text@,
            ) is Ok;
            &&& solved(e, s, now) ==> a.status == 204 && request::lookup(a.headers, "set-cookie"@) == Some(clearance)
            &&& !solved(e, s, now) ==> a.status == 400 && request::lookup(a.headers, "set-cookie"@) is None
            &&& passed ==> b.status == 204 && request::lookup(b.headers, "set-cookie"@) == Some(clearance)
            &&& !passed ==> b.status == 403 && request::lookup(b.headers, "set-cookie"@) is None
            &&& proved ==> c.status == 204 && request::lookup(c.headers, "set-cookie"@) == Some(silent)
            &&& !proved ==> c.status == 400 && request::lookup(c.headers, "set-cookie"@) is None
        }),
{
    let ttl = e.challenger.spec_ttl();
    let clearance = cookie_setting(
        e.challenger.spec_name(),
        challenge::clearance_text(e.challenger.spec_secret(), challenge::later(now, ttl)),
        ttl,
    );
    let silent = cookie_setting(
        bic::BIC_COOKIE_NAME@,
        bic::cookie_text(e.bic.spec_secret(), challenge::later(now, bic::COOKIE_TTL_SECS), ip),
        bic::COOKIE_TTL_SECS,
    );
    lemma_answer(400, "{\"error\":\"verification failed\"}"@, clearance);
    lemma_answer(403, "{\"error\":\"captcha verification failed\"}"@, clearance);
    lemma_answer(400, "{\"error\":\"bic verification failed\"}"@, silent);
}

/// What could not be read is no passed test.
pub proof fn lemma_unread(e: Engine, ip: IpAddr, now: u64)
    ensures
        !solved(e, None, now),
        solution_reply(e, None, now).status == 400,
        bic_reply(e, None, ip, now).status == 400,
{
    lemma_answer(400, "{\"error\":\"verification failed\"}"@, seq![]);
    lemma_answer(400, "{\"error\":\"bic verification failed\"}"@, seq![]);
}

/// The upstream is told the address of the client in both of the usual headers, the id of the request
/// and how the client is connected.
pub proof fn lemma_upstream_told(id: Seq<char>, client: Seq<char>, tls: bool)
    ensures
        ({
            let h = upstream_headers_of(id, client, tls);
            &&& request::lookup(h, "x-waf-request-id"@) == Some(id)
            &&& request::lookup(h, "x-real-ip"@) == Some(client)
            &&& request::lookup(h, "x-forwarded-for"@) == Some(client)
            &&& request::lookup(h, "x-forwarded-proto"@) == Some(
                if tls {
                    "https"@
                } else {
                    "http"@
                },
            )
        }),
{
    reveal_strlit("x-waf-request-id");
    reveal_strlit("x-real-ip");
    reveal_strlit("x-forwarded-for");
    reveal_strlit("x-forwarded-proto");
    assert("x-waf-request-id"@.len() == 16 && "x-real-ip"@.len() == 9);
    assert("x-forwarded-for"@.len() == 15 && "x-forwarded-proto"@.len() == 17);
    let h = upstream_headers_of(id, client, tls);
    request::lemma_lookup(h, "x-waf-request-id"@, 0);
    request::lemma_lookup(h, "x-real-ip"@, 1);
    request::lemma_lookup(h, "x-forwarded-for"@, 2);
    request::lemma_lookup(h, "x-forwarded-proto"@, 3);
}

/// A request goes on to the upstream exactly when it is allowed, and drips exactly when it is held.
pub proof fn lemma_step_exactly(
    step: FilterStep,
    d: DecisionView,
    e: Engine,
    raw: RawRequest,
    logo: Seq<char>,
    m: Moment,
    salt: Seq<u8>,
)
    requires
        carries_out(step, d, e, raw, logo, m, salt),
    ensures
        step is Forward <==> d.action == Action::Allow,
        step is Drip <==> d.action == Action::Tarpit,
        step is Answer <==> d.action == Action::Block || d.action == Action::Challenge,
        d.action == Action::Block ==> step->Answer_0@.status == d.status,
{
    lemma_block_answer(d);
}

/// Whatever a client asks for, only what the engine allows reaches the upstream, and what it asks of
/// the reserved endpoints does not.
pub proof fn lemma_upstream_guarded(
    before: Engine,
    after: Engine,
    ctx: WafCtx,
    step: FilterStep,
    raw: RawRequest,
    req: RequestCtx,
    signals: engine::SignalsView,
    logo: Seq<char>,
    m: Moment,
    salt: Seq<u8>,
)
    requires
        filtered(before, after, ctx, step, raw, req, signals, logo, m, salt),
    ensures
        step is Forward <==> route_for(req.path@, req.method@) == Route::Inspect && engine::decision_on(
            begun(before@, req.client_ip),
            req,
            signals,
            m.now_ms,
        ).action == Action::Allow,
        ctx.handled_locally <==> !(step is Forward),
{
}

/// A request in flight counts for its address and its network, once, until it has ended.
pub proof fn lemma_flight(v: EngineView, ip: IpAddr)
    requires
        0 <= connections::count_at(v.conns, ip.spec_key()) < i64::MAX,
        0 <= subnet::flying(v.subnets.in_flight, subnet::key_of(ip)) < i64::MAX,
        v.conns.contains_key(ip.spec_key()) || v.conns.dom().len() <= 150_000,
    ensures
        connections::count_at(begun(v, ip).conns, ip.spec_key()) == connections::count_at(v.conns, ip.spec_key()) + 1,
        subnet::flying(begun(v, ip).subnets.in_flight, subnet::key_of(ip)) == subnet::flying(
            v.subnets.in_flight,
            subnet::key_of(ip),
        ) + 1,
        connections::count_at(v.conns, ip.spec_key()) > 0 ==> connections::count_at(ended(v, ip).conns, ip.spec_key())
            == connections::count_at(v.conns, ip.spec_key()) - 1,
        subnet::flying(v.subnets.in_flight, subnet::key_of(ip)) > 0 ==> subnet::flying(
            ended(v, ip).subnets.in_flight,
            subnet::key_of(ip),
        ) == subnet::flying(v.subnets.in_flight, subnet::key_of(ip)) - 1,
{
}

/// What the engine is told of a request is what came: its host and its User-Agent are those of the
/// headers of these names, its address that of the trusted chain, and its length the one announced.
pub proof fn lemma_request_read(ctx: RequestCtx, raw: RawRequest, hops: u8, id: Seq<char>)
    requires
        describes(ctx, raw, hops, id),
    ensures
        ({
            let h = first_values(raw.headers@);
            let host = request::lookup(h, "host"@);
            let agent = request::lookup(h, "user-agent"@);
            let cookie = request::lookup(h, "cookie"@);
            let length = request::lookup(h, "content-length"@);
            &&& host is Some ==> ctx.host@ == host->0
            &&& host is None ==> ctx.host@.len() == 0
            &&& agent is Some ==> ctx.user_agent@ == agent->0
            &&& agent is None ==> ctx.user_agent@.len() == 0
            &&& cookie is None ==> ctx.cookies@.len() == 0
            &&& cookie is Some ==> ctx.cookies@ == request::cookies_of(text::pieces(cookie->0, ';'))
            &&& length is None ==> ctx.content_length is None
            &&& raw.query is None ==> ctx.query@.len() == 0
            &&& raw.query is Some ==> ctx.query@ == raw.query->0@
            &&& ctx.method@ == raw.method@
            &&& ctx.uri@ == raw.uri@
            &&& ctx.path@ == raw.path@
            &&& ctx.http_version@ == raw.version@
            &&& ctx.headers@ == h
            &&& hops == 0 && raw.socket_ip is Some ==> ctx.client_ip == raw.socket_ip->0
            &&& forall|n: u64| length == Some(#[trigger] num::dec_text(n as nat)) ==> ctx.content_length == Some(n)
        }),
{
    let length = request::lookup(first_values(raw.headers@), "content-length"@);
    assert forall|n: u64| length == Some(#[trigger] num::dec_text(n as nat)) implies ctx.content_length == Some(n) by {
        num::lemma_read_back(n as nat, u64::MAX as nat);
    }
}

/// Four kibibytes are read of a solution, one of a passed silent check and eight of a captcha.
pub proof fn lemma_answer_bounds()
    ensures
        VERIFY_BODY == 4096,
        BIC_BODY == 1024,
        CAPTCHA_BODY == 8192,
{
}

/// The names of the cookies are those before the equals signs, in lower case and without the blanks
/// around them, in the order in which they came.
pub proof fn lemma_cookie_names(parts: Seq<Seq<char>>, name: Seq<char>, value: Seq<char>)
    requires
        !name.contains('='),
    ensures
        cookie_names(parts.push(name + seq!['='] + value)) == cookie_names(parts).push(
            text::lower_text(text::trimmed(name)),
        ),
        cookie_names(parts.push(name)) == cookie_names(parts),
        cookie_names(seq![]).len() == 0,
{
    let part = name + seq!['='] + value;
    assert(parts.push(part).drop_last() =~= parts);
    assert(parts.push(name).drop_last() =~= parts);
    text::lemma_cut(name, '=', value);
}

} // verus!
