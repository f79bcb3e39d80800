//! The recent decisions, for the live-traffic page.

use crate::clock::now_ms;
use crate::decision::{self, copy_reasons, Action, Decision, DecisionReason, DecisionView, ReasonView};
use crate::net;
use crate::request::{self, RequestCtx, TextMap};
use crate::text::{self, copy_list, copy_opt, first_chars, is_one_of};
use std::collections::VecDeque;
use vstd::prelude::*;

verus! {

pub const DEFAULT_CAP: usize = 500;

/// How much of the User-Agent the log keeps.
pub const LOG_UA_CHARS: usize = 96;

/// How much of the User-Agent and of the query a stored event keeps.
pub const STORED_CHARS: usize = 192;

/// How much of the value of a header a stored event keeps.
pub const HEADER_CHARS: usize = 256;

#[derive(Debug)]
pub struct Event {
    pub ts_ms: u64,
    pub request_id: String,
    pub ip: String,
    pub method: String,
    pub host: String,
    pub path: String,
    pub query: String,
    pub user_agent: String,
    pub country: Option<String>,
    pub action: Action,
    pub status: u16,
    pub score: u32,
    pub rule_id: Option<String>,
    pub category: Option<String>,
    pub http_version: String,
    pub ja4h: String,
    pub reasons: Vec<DecisionReason>,
    pub header_order: Vec<String>,
    pub headers: Vec<(String, String)>,
}

#[verifier::ext_equal]
pub struct EventView {
    pub ts_ms: u64,
    pub request_id: Seq<char>,
    pub ip: Seq<char>,
    pub method: Seq<char>,
    pub host: Seq<char>,
    pub path: Seq<char>,
    pub query: Seq<char>,
    pub user_agent: Seq<char>,
    pub country: Option<Seq<char>>,
    pub action: Action,
    pub status: u16,
    pub score: u32,
    pub rule_id: Option<Seq<char>>,
    pub category: Option<Seq<char>>,
    pub http_version: Seq<char>,
    pub ja4h: Seq<char>,
    pub reasons: Seq<ReasonView>,
    pub header_order: Seq<Seq<char>>,
    pub headers: Seq<request::Pair>,
}

/// The names and values of a list of pairs.
pub open spec fn pair_views(list: Seq<(String, String)>) -> Seq<request::Pair> {
    Seq::new(list.len(), |i: int| (list[i].0@, list[i].1@))
}

impl View for Event {
    type V = EventView;

    open spec fn view(&self) -> EventView {
        EventView {
            ts_ms: self.ts_ms,
            request_id: self.request_id@,
            ip: self.ip@,
            method: self.method@,
            host: self.host@,
            path: self.path@,
            query: self.query@,
            user_agent: self.user_agent@,
            country: self.country.deep_view(),
            action: self.action,
            status: self.status,
            score: self.score,
            rule_id: self.rule_id.deep_view(),
            category: self.category.deep_view(),
            http_version: self.http_version@,
            ja4h: self.ja4h@,
            reasons: decision::views(self.reasons@),
            header_order: self.header_order.deep_view(),
            headers: pair_views(self.headers@),
        }
    }
}

/// The headers whose values are secrets.
pub open spec fn secret_headers() -> Seq<Seq<char>> {
    seq!["cookie"@, "authorization"@, "proxy-authorization"@, "x-api-key"@, "x-auth-token"@]
}

/// The value of a header as it is stored: secrets are blotted out, long values cut.
pub open spec fn redacted(name: Seq<char>, value: Seq<char>) -> Seq<char> {
    if secret_headers().contains(name) {
        "•••"@
    } else {
        text::head(value, HEADER_CHARS as nat)
    }
}

pub fn redact(name: &str, value: &str) -> (r: String)
    ensures
        r@ == redacted(name@, value@),
{
    let names = ["cookie", "authorization", "proxy-authorization", "x-api-key", "x-auth-token"];
    assert(text::texts(names@) =~= secret_headers());
    if is_one_of(name, &names) {
        "•••".to_string()
    } else {
        first_chars(value, HEADER_CHARS)
    }
}

/// The stored headers, in the order of arrival.
pub open spec fn stored_headers(order: Seq<Seq<char>>, headers: Seq<request::Pair>) -> Seq<request::Pair>
    decreases order.len(),
{
    if order.len() == 0 {
        seq![]
    } else {
        let before = stored_headers(order.drop_last(), headers);
        match request::lookup(headers, order.last()) {
            Some(v) => before.push((order.last(), redacted(order.last(), v))),
            None => before,
        }
    }
}

/// No secret is stored: the value of a header that holds one is blotted out.
pub proof fn lemma_no_secret_stored(order: Seq<Seq<char>>, headers: Seq<request::Pair>, i: int)
    requires
        0 <= i < stored_headers(order, headers).len(),
        secret_headers().contains(stored_headers(order, headers)[i].0),
    ensures
        stored_headers(order, headers)[i].1 == "•••"@,
    decreases order.len(),
{
    if order.len() > 0 {
        let before = stored_headers(order.drop_last(), headers);
        if i < before.len() {
            lemma_no_secret_stored(order.drop_last(), headers, i);
        }
    }
}

fn list_headers(order: &Vec<String>, headers: &TextMap) -> (r: Vec<(String, String)>)
    ensures
        pair_views(r@) == stored_headers(order.deep_view(), headers@),
{
    let mut out: Vec<(String, String)> = Vec::new();
    let ghost all = order.deep_view();
    assert(pair_views(out@) =~= stored_headers(all.take(0), headers@));
    for i in 0..order.len()
        invariant
            all == order.deep_view(),
            pair_views(out@) == stored_headers(all.take(i as int), headers@),
    {
        proof {
            assert(all.take(i + 1).drop_last() =~= all.take(i as int));
            assert(all.take(i + 1).last() == order@[i as int]@);
        }
        let name = order[i].as_str();
        if let Some(v) = headers.get(name) {
            let ghost before = pair_views(out@);
            out.push((name.to_string(), redact(name, v.as_str())));
            assert(pair_views(out@) =~= before.push((name@, redacted(name@, v@))));
        }
    }
    assert(all.take(all.len() as int) =~= all);
    out
}

/// The event of a decision on a request.
pub open spec fn event_of(ctx: RequestCtx, d: DecisionView, now_ms: u64, ua_chars: nat) -> EventView {
    EventView {
        ts_ms: now_ms,
        request_id: d.request_id,
        ip: net::ip_text(ctx.client_ip),
        method: ctx.method@,
        host: ctx.host@,
        path: ctx.path@,
        query: text::head(ctx.query@, STORED_CHARS as nat),
        user_agent: text::head(ctx.user_agent@, ua_chars),
        country: ctx.country.deep_view(),
        action: d.action,
        status: d.status,
        score: d.score,
        rule_id: match d.primary() {
            Some(r) => Some(r.rule_id),
            None => None,
        },
        category: match d.primary() {
            Some(r) => Some(r.category),
            None => None,
        },
        http_version: ctx.http_version@,
        ja4h: ctx.ja4h@,
        reasons: d.reasons,
        header_order: ctx.header_order.deep_view(),
        headers: stored_headers(ctx.header_order.deep_view(), ctx.headers@),
    }
}

impl Event {
    /// The event of a decision on a request.
    pub fn of(ctx: &RequestCtx, d: &Decision, now_ms: u64, ua_chars: usize) -> (r: Event)
        ensures
            r@ == event_of(*ctx, d@, now_ms, ua_chars as nat),
    {
        let (rule_id, category) = if d.reasons.len() > 0 {
            (Some(d.reasons[0].rule_id.clone()), Some(d.reasons[0].category.clone()))
        } else {
            (None, None)
        };
        let r = Event {
            ts_ms: now_ms,
            request_id: d.request_id.clone(),
            ip: ctx.client_ip.to_text(),
            method: ctx.method.clone(),
            host: ctx.host.clone(),
            path: ctx.path.clone(),
            query: first_chars(ctx.query.as_str(), STORED_CHARS),
            user_agent: first_chars(ctx.user_agent.as_str(), ua_chars),
            country: copy_opt(&ctx.country),
            action: d.action,
            status: d.status,
            score: d.score,
            rule_id,
            category,
            http_version: ctx.http_version.clone(),
            ja4h: ctx.ja4h.clone(),
            reasons: copy_reasons(&d.reasons),
            header_order: copy_list(&ctx.header_order),
            headers: list_headers(&ctx.header_order, &ctx.headers),
        };
        assert(r@ =~= event_of(*ctx, d@, now_ms, ua_chars as nat));
        r
    }

    pub fn copy(&self) -> (r: Event)
        ensures
            r@ == self@,
    {
        let mut headers: Vec<(String, String)> = Vec::new();
        for i in 0..self.headers.len()
            invariant
                headers@.len() == i,
                forall|j: int|
                    0 <= j < i ==> (#[trigger] headers@[j]).0@ == self.headers@[j].0@ && headers@[j].1@
                        == self.headers@[j].1@,
        {
            headers.push((self.headers[i].0.clone(), self.headers[i].1.clone()));
        }
        let r = Event {
            ts_ms: self.ts_ms,
            request_id: self.request_id.clone(),
            ip: self.ip.clone(),
            method: self.method.clone(),
            host: self.host.clone(),
            path: self.path.clone(),
            query: self.query.clone(),
            user_agent: self.user_agent.clone(),
            country: copy_opt(&self.country),
            action: self.action,
            status: self.status,
            score: self.score,
            rule_id: copy_opt(&self.rule_id),
            category: copy_opt(&self.category),
            http_version: self.http_version.clone(),
            ja4h: self.ja4h.clone(),
            reasons: copy_reasons(&self.reasons),
            header_order: copy_list(&self.header_order),
            headers,
        };
        assert(r@ =~= self@);
        r
    }
}

pub open spec fn event_views(list: Seq<Event>) -> Seq<EventView> {
    Seq::new(list.len(), |i: int| list[i]@)
}

pub struct EventLog {
    inner: VecDeque<Event>,
    cap: usize,
}

#[verifier::ext_equal]
pub struct LogView {
    /// The events, the oldest first.
    pub events: Seq<EventView>,
    pub cap: usize,
}

impl View for EventLog {
    type V = LogView;

    closed spec fn view(&self) -> LogView {
        LogView { events: event_views(self.inner@), cap: self.cap }
    }
}

/// The log with one more event; the oldest one leaves a log that is full. A log without room
/// takes none.
pub open spec fn logged(l: LogView, e: EventView) -> LogView {
    if l.cap == 0 {
        l
    } else {
        LogView {
            events: (if l.events.len() == l.cap {
                l.events.drop_first()
            } else {
                l.events
            }).push(e),
            ..l
        }
    }
}

/// The latest `n` events, the newest first.
pub open spec fn newest(events: Seq<EventView>, n: nat) -> Seq<EventView> {
    Seq::new(
        if events.len() < n {
            events.len()
        } else {
            n
        },
        |i: int| events[events.len() - 1 - i],
    )
}

/// The first `max` events after a time, in their order.
pub open spec fn after_time(events: Seq<EventView>, since_ms: u64, max: nat) -> Seq<EventView>
    decreases events.len(),
{
    if events.len() == 0 {
        seq![]
    } else {
        let before = after_time(events.drop_last(), since_ms, max);
        if events.last().ts_ms > since_ms && before.len() < max {
            before.push(events.last())
        } else {
            before
        }
    }
}

/// A log never grows beyond its bound, and where it has room the newest event is the first one
/// that is handed out.
pub proof fn lemma_log_bounded(l: LogView, e: EventView)
    requires
        l.events.len() <= l.cap,
    ensures
        logged(l, e).events.len() <= l.cap,
        l.cap > 0 ==> newest(logged(l, e).events, 1) == seq![e],
{
    if l.cap > 0 {
        assert(newest(logged(l, e).events, 1) =~= seq![e]);
    }
}

impl Default for EventLog {
    fn default() -> (r: EventLog)
        ensures
            r@ == (LogView { events: seq![], cap: DEFAULT_CAP }),
    {
        EventLog::with_capacity(DEFAULT_CAP)
    }
}

impl EventLog {
    pub fn with_capacity(cap: usize) -> (r: EventLog)
        ensures
            r@ == (LogView { events: seq![], cap }),
    {
        let r = EventLog { inner: VecDeque::new(), cap };
        assert(r@.events =~= seq![]);
        r
    }

    /// Records a decision on a request at a given time.
    pub fn record_at(&mut self, now_ms: u64, ctx: &RequestCtx, d: &Decision)
        ensures
            final(self)@ == logged(old(self)@, event_of(*ctx, d@, now_ms, LOG_UA_CHARS as nat)),
    {
        if self.cap == 0 {
            return;
        }
        let ev = Event::of(ctx, d, now_ms, LOG_UA_CHARS);
        if self.inner.len() == self.cap {
            let _ = self.inner.pop_front();
        }
        let ghost e = ev@;
        self.inner.push_back(ev);
        assert(self@.events =~= logged(old(self)@, e).events);
    }

    /// Records a decision on a request.
    pub fn record(&mut self, ctx: &RequestCtx, d: &Decision)
        ensures
            exists|now_ms: u64|
                final(self)@ == logged(old(self)@, #[trigger] event_of(*ctx, d@, now_ms, LOG_UA_CHARS as nat)),
    {
        self.record_at(now_ms(), ctx, d)
    }

    /// The latest `n` events, the newest first.
    pub fn recent(&self, n: usize) -> (r: Vec<Event>)
        ensures
            event_views(r@) == newest(self@.events, n as nat),
    {
        let len: usize = self.inner.len();
        let count: usize = if len < n {
            len
        } else {
            n
        };
        let mut out: Vec<Event> = Vec::new();
        for i in 0..count
            invariant
                count <= len,
                len == self.inner@.len(),
                out@.len() == i,
                forall|j: int| 0 <= j < i ==> (#[trigger] out@[j])@ == self.inner@[len - 1 - j]@,
        {
            out.push(self.inner[len - 1 - i].copy());
        }
        assert(event_views(out@) =~= newest(self@.events, n as nat));
        out
    }

    /// The first `max` events after a time, in their order.
    pub fn since(&self, since_ms: u64, max: usize) -> (r: Vec<Event>)
        ensures
            event_views(r@) == after_time(self@.events, since_ms, max as nat),
    {
        let mut out: Vec<Event> = Vec::new();
        let ghost all = self@.events;
        let len: usize = self.inner.len();
        assert(event_views(out@) =~= after_time(all.take(0), since_ms, max as nat));
        for i in 0..len
            invariant
                len == self.inner@.len(),
                all == self@.events,
                event_views(out@) == after_time(all.take(i as int), since_ms, max as nat),
        {
            proof {
                assert(all.take(i + 1).drop_last() =~= all.take(i as int));
                assert(all.take(i + 1).last() == self.inner@[i as int]@);
            }
            if self.inner[i].ts_ms > since_ms && out.len() < max {
                let ghost before = event_views(out@);
                let e = self.inner[i].copy();
                let ghost added = e@;
                out.push(e);
                assert(event_views(out@) =~= before.push(added));
            }
        }
        assert(all.take(len as int) =~= all);
        out
    }
}

// ---------------------------------------------------------------------------
// Laws
// ---------------------------------------------------------------------------

/// The five headers that hold secrets are blotted out; the value of every other one is kept up to
/// 256 characters.
pub proof fn lemma_redacted_exactly(name: Seq<char>, value: Seq<char>)
    ensures
        ({
            let secret = name == "cookie"@ || name == "authorization"@ || name == "proxy-authorization"@ || name
                == "x-api-key"@ || name == "x-auth-token"@;
            &&& secret ==> redacted(name, value) == "•••"@
            &&& !secret && value.len() <= 256 ==> redacted(name, value) == value
            &&& !secret && value.len() > 256 ==> redacted(name, value) == value.take(256)
        }),
{
    let l = secret_headers();
    assert(l[0] == "cookie"@ && l[1] == "authorization"@ && l[2] == "proxy-authorization"@);
    assert(l[3] == "x-api-key"@ && l[4] == "x-auth-token"@ && l.len() == 5);
}

/// Every header that came is stored under its name, as far as it may be, and nothing else is.
pub proof fn lemma_headers_stored(order: Seq<Seq<char>>, headers: Seq<request::Pair>, name: Seq<char>, shown: Seq<char>)
    ensures
        stored_headers(order, headers).contains((name, shown)) <==> order.contains(name) && request::lookup(
            headers,
            name,
        ) is Some && shown == redacted(name, request::lookup(headers, name)->0),
    decreases order.len(),
{
    if order.len() > 0 {
        let rest = order.drop_last();
        let n = order.last();
        lemma_headers_stored(rest, headers, name, shown);
        let before = stored_headers(rest, headers);
        let all = stored_headers(order, headers);
        assert(order[order.len() - 1] == n);
        if rest.contains(name) {
            let i = choose|i: int| 0 <= i < rest.len() && rest[i] == name;
            assert(order[i] == name);
        }
        if order.contains(name) && !rest.contains(name) {
            let i = choose|i: int| 0 <= i < order.len() && order[i] == name;
            if i < rest.len() {
                assert(rest[i] == name);
            }
        }
        if before.contains((name, shown)) {
            let i = choose|i: int| 0 <= i < before.len() && before[i] == (name, shown);
            assert(all[i] == (name, shown));
        }
        if request::lookup(headers, n) is Some {
            assert(all[all.len() - 1] == (n, redacted(n, request::lookup(headers, n)->0)));
            if all.contains((name, shown)) && !before.contains((name, shown)) {
                let i = choose|i: int| 0 <= i < all.len() && all[i] == (name, shown);
                if i < before.len() {
                    assert(before[i] == (name, shown));
                }
            }
        }
    }
}

/// The headers are stored in the order in which they came.
pub proof fn lemma_headers_in_order(a: Seq<Seq<char>>, b: Seq<Seq<char>>, headers: Seq<request::Pair>)
    ensures
        stored_headers(a + b, headers) == stored_headers(a, headers) + stored_headers(b, headers),
    decreases b.len(),
{
    if b.len() == 0 {
        assert(a + b =~= a);
        assert(stored_headers(a, headers) + stored_headers(b, headers) =~= stored_headers(a, headers));
    } else {
        lemma_headers_in_order(a, b.drop_last(), headers);
        assert((a + b).drop_last() =~= a + b.drop_last());
        assert(stored_headers(a + b, headers) =~= stored_headers(a, headers) + stored_headers(b, headers));
    }
}

/// An event shows what was decided on which request, and why: the first reason names it.
pub proof fn lemma_event_shows(ctx: RequestCtx, d: DecisionView, now_ms: u64, ua_chars: nat)
    ensures
        ({
            let e = event_of(ctx, d, now_ms, ua_chars);
            &&& e.ts_ms == now_ms
            &&& e.request_id == d.request_id
            &&& e.action == d.action
            &&& e.status == d.status
            &&& e.score == d.score
            &&& e.reasons == d.reasons
            &&& d.reasons.len() == 0 ==> e.rule_id is None && e.category is None
            &&& d.reasons.len() > 0 ==> e.rule_id == Some(d.reasons[0].rule_id) && e.category == Some(
                d.reasons[0].category,
            )
            &&& e.ip == net::ip_text(ctx.client_ip)
            &&& e.method == ctx.method@
            &&& e.host == ctx.host@
            &&& e.path == ctx.path@
            &&& ctx.country is None ==> e.country is None
            &&& ctx.country is Some ==> e.country == Some(ctx.country->0@)
            &&& e.http_version == ctx.http_version@
            &&& e.ja4h == ctx.ja4h@
            &&& e.header_order == ctx.header_order.deep_view()
            &&& e.headers == stored_headers(e.header_order, ctx.headers@)
            &&& ctx.query@.len() <= 192 ==> e.query == ctx.query@
            &&& ctx.query@.len() > 192 ==> e.query == ctx.query@.take(192)
            &&& ctx.user_agent@.len() <= ua_chars ==> e.user_agent == ctx.user_agent@
            &&& ctx.user_agent@.len() > ua_chars ==> e.user_agent == ctx.user_agent@.take(ua_chars as int)
        }),
{
}

/// The log after a list of events.
pub open spec fn all_logged(l: LogView, list: Seq<EventView>) -> LogView
    decreases list.len(),
{
    if list.len() == 0 {
        l
    } else {
        logged(all_logged(l, list.drop_last()), list.last())
    }
}

/// A log keeps the newest events, as many as it has room for, in their order.
pub proof fn lemma_log_keeps_newest(l: LogView, list: Seq<EventView>)
    requires
        l.events.len() <= l.cap,
        l.cap > 0,
    ensures
        ({
            let all = l.events + list;
            &&& all_logged(l, list).cap == l.cap
            &&& all_logged(l, list).events == if all.len() <= l.cap {
                all
            } else {
                all.skip(all.len() - l.cap)
            }
        }),
    decreases list.len(),
{
    if list.len() == 0 {
        assert(l.events + list =~= l.events);
    } else {
        let rest = list.drop_last();
        lemma_log_keeps_newest(l, rest);
        let all = l.events + list;
        let before = l.events + rest;
        assert(all =~= before.push(list.last()));
        let m = all_logged(l, rest);
        if all.len() > l.cap {
            assert(m.events.len() == l.cap);
            assert(all_logged(l, list).events =~= all.skip(all.len() - l.cap));
        } else {
            assert(all_logged(l, list).events =~= all);
        }
    }
}

/// The newest events come with the latest first, as many as were asked for and are there.
pub proof fn lemma_newest_exactly(events: Seq<EventView>, n: nat)
    ensures
        newest(events, n).len() <= n,
        n <= events.len() ==> newest(events, n).len() == n,
        n > events.len() ==> newest(events, n).len() == events.len(),
        forall|i: int| 0 <= i < newest(events, n).len() ==> #[trigger] newest(events, n)[i] == events[events.len() - 1 - i],
{
}

/// What comes after a time is every event that is younger, in the order of the log, up to the
/// number that was asked for.
pub proof fn lemma_after_time(events: Seq<EventView>, since_ms: u64, max: nat)
    ensures
        after_time(events, since_ms, max).len() <= max,
        forall|i: int|
            0 <= i < after_time(events, since_ms, max).len() ==> (#[trigger] after_time(events, since_ms, max)[i]).ts_ms
                > since_ms && events.contains(after_time(events, since_ms, max)[i]),
        after_time(events, since_ms, max).len() < max ==> forall|j: int|
            0 <= j < events.len() && (#[trigger] events[j]).ts_ms > since_ms ==> after_time(
                events,
                since_ms,
                max,
            ).contains(events[j]),
    decreases events.len(),
{
    if events.len() > 0 {
        let rest = events.drop_last();
        lemma_after_time(rest, since_ms, max);
        let before = after_time(rest, since_ms, max);
        let all = after_time(events, since_ms, max);
        assert forall|i: int| 0 <= i < all.len() implies (#[trigger] all[i]).ts_ms > since_ms && events.contains(
            all[i],
        ) by {
            if i < before.len() {
                assert(all[i] == before[i]);
                let j = choose|j: int| 0 <= j < rest.len() && rest[j] == before[i];
                assert(events[j] == all[i]);
            } else {
                assert(all[i] == events[events.len() - 1]);
            }
        }
        if all.len() < max {
            assert forall|j: int| 0 <= j < events.len() && (#[trigger] events[j]).ts_ms > since_ms implies all.contains(
                events[j],
            ) by {
                if j < rest.len() {
                    assert(rest[j] == events[j]);
                    let i = choose|i: int| 0 <= i < before.len() && before[i] == events[j];
                    assert(all[i] == events[j]);
                } else {
                    assert(all[all.len() - 1] == events[j]);
                }
            }
        }
    }
}

} // verus!
