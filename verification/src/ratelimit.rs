//! Sliding-window rate limiter with stricter limits for single routes.

use crate::clock::now_secs;
use crate::config::{RateLimitCfg, RouteRateLimit};
use crate::net::IpAddr;
use crate::rules::{self, compile, describe_error, matches_any};
use crate::subnet;
use crate::table::{self, Key, Table};
use crate::text::{self, cat4, quoted};
use crate::window::{self, Counter, CounterView, BUCKET_SECS};
use regex::RegexSet;
use vstd::prelude::*;

verus! {

/// How many counters are kept before new ones are refused.
pub const MAX_COUNTERS: usize = 150_000;

/// The count that stands for a counter that cannot be kept any more.
pub const TOO_MANY: u32 = 999999;

/// The whole of a ceiling, in basis points.
pub const FULL_SCALE: u32 = 10_000;

struct CompiledRoute {
    re: RegexSet,
    rpm: u32,
    burst: u32,
}

/// One route: what its paths match, and its ceiling.
#[verifier::ext_equal]
pub struct RouteView {
    pub pattern: Seq<char>,
    pub rpm: u32,
    pub burst: u32,
}

pub struct RateLimiter {
    enabled: bool,
    global_rpm: u32,
    global_burst: u32,
    routes: Vec<CompiledRoute>,
    counters: Table<Counter>,
}

#[verifier::ext_equal]
pub struct RateView {
    pub enabled: bool,
    pub rpm: u32,
    pub burst: u32,
    pub routes: Seq<RouteView>,
    /// The counters, by the number of the scope and the number of the address.
    pub counters: Map<Key, CounterView>,
}

#[derive(Debug)]
pub struct Limited {
    pub retry_after: u64,
    pub scope: &'static str,
    pub path: String,
}

#[verifier::ext_equal]
pub struct LimitedView {
    pub retry_after: u64,
    pub scope: Seq<char>,
    pub path: Seq<char>,
}

impl View for Limited {
    type V = LimitedView;

    open spec fn view(&self) -> LimitedView {
        LimitedView { retry_after: self.retry_after, scope: self.scope@, path: self.path@ }
    }
}

/// A route has a pattern that cannot be compiled.
#[derive(Debug)]
pub struct RateLimitError {
    pub message: String,
}

/// The message for a route whose pattern could not be compiled.
pub open spec fn route_error(pattern: Seq<char>, e: regex::Error) -> Seq<char> {
    "rate_limit.routes pattern "@ + text::debug_text(pattern) + ": "@ + rules::error_text(e)
}

/// The place of the first outcome that is a failure, or the number of outcomes.
pub open spec fn first_failed(outcomes: Seq<Result<RegexSet, regex::Error>>) -> int
    decreases outcomes.len(),
{
    if outcomes.len() == 0 || outcomes[0] is Err {
        0
    } else {
        1 + first_failed(outcomes.drop_first())
    }
}

proof fn lemma_first_failed(outcomes: Seq<Result<RegexSet, regex::Error>>, i: int)
    requires
        0 <= i <= outcomes.len(),
        forall|j: int| 0 <= j < i ==> (#[trigger] outcomes[j]) is Ok,
        i < outcomes.len() ==> outcomes[i] is Err,
    ensures
        first_failed(outcomes) == i,
    decreases outcomes.len(),
{
    if i > 0 {
        assert(outcomes[0] is Ok);
        let rest = outcomes.drop_first();
        assert forall|j: int| 0 <= j < i - 1 implies (#[trigger] rest[j]) is Ok by {
            assert(rest[j] == outcomes[j + 1]);
        }
        lemma_first_failed(rest, i - 1);
    }
}

/// Whether a list holds an outcome for each route, and each set the pattern of its route.
pub open spec fn outcomes_of(outcomes: Seq<Result<RegexSet, regex::Error>>, routes: Seq<RouteRateLimit>) -> bool {
    &&& outcomes.len() == routes.len()
    &&& forall|i: int|
        0 <= i < routes.len() ==> ((#[trigger] outcomes[i]) matches Ok(set) ==> rules::set_patterns(set) == seq![
            routes[i].pattern@,
        ])
}

/// The state of a new limiter.
pub open spec fn new_limiter(cfg: RateLimitCfg) -> RateView {
    RateView {
        enabled: cfg.enabled,
        rpm: cfg.requests_per_minute,
        burst: cfg.burst,
        routes: configured_routes(cfg.routes@),
        counters: Map::empty(),
    }
}

/// Whether `r` is what the outcomes of the compilation come to: a limiter where all of them are
/// sets, and else the message for the first that is not.
pub open spec fn limiter_from(
    r: Result<RateLimiter, RateLimitError>,
    cfg: RateLimitCfg,
    outcomes: Seq<Result<RegexSet, regex::Error>>,
) -> bool {
    let k = first_failed(outcomes);
    if k == outcomes.len() {
        r matches Ok(l) && l.wf() && l@ == new_limiter(cfg)
    } else {
        r matches Err(e) && e.message@ == route_error(cfg.routes@[k].pattern@, outcomes[k]->Err_0)
    }
}

/// The number by which an address is counted: an IPv4 address by itself, an IPv6 address by its
/// /64, so that a change of the lower half is no way round a limit.
pub open spec fn rl_number(ip: IpAddr) -> nat {
    match ip {
        IpAddr::V4(x) => (0x8000_0000_0000_0000_0000_0000_0000_0000 + x) as nat,
        IpAddr::V6(x) => (x / 0x1_0000_0000_0000_0000) as nat,
    }
}

/// Two addresses are counted together exactly when they are equal or IPv6 addresses of one /64.
pub proof fn lemma_rl_number(a: IpAddr, b: IpAddr)
    ensures
        rl_number(a) == rl_number(b) <==> match (a, b) {
            (IpAddr::V4(x), IpAddr::V4(y)) => x == y,
            (IpAddr::V6(x), IpAddr::V6(y)) => x / 0x1_0000_0000_0000_0000 == y / 0x1_0000_0000_0000_0000,
            _ => false,
        },
{
}

fn rl_key(ip: IpAddr) -> (r: u128)
    ensures
        r == rl_number(ip),
{
    match ip {
        IpAddr::V4(x) => 0x8000_0000_0000_0000_0000_0000_0000_0000u128 + x as u128,
        IpAddr::V6(x) => x / 0x1_0000_0000_0000_0000u128,
    }
}

/// The key of the counter of an address in a scope: zero for the whole site, `i + 1` for the
/// route at `i`.
pub open spec fn key_of(scope: nat, ip: IpAddr) -> Key {
    (scope as u64, rl_number(ip) as u128)
}

/// A ceiling, scaled. The scale is at least one percent.
pub open spec fn scaled(rpm: u32, scale_bps: u32) -> u32 {
    let scale = if scale_bps < 100 {
        100
    } else {
        scale_bps
    };
    (rpm * scale / 10_000 % 0x1_0000_0000) as u32
}

pub open spec fn over(count: u32, rpm: u32, burst: u32) -> bool {
    count > (if rpm + burst > u32::MAX {
        u32::MAX as int
    } else {
        rpm + burst
    })
}

/// Whether a request cannot be counted: its counter is new, and there are too many.
pub open spec fn full(m: Map<Key, CounterView>, k: Key) -> bool {
    !m.contains_key(k) && m.dom().len() > MAX_COUNTERS
}

/// The counters after a request that is counted under `k`.
pub open spec fn bumped(m: Map<Key, CounterView>, k: Key, now: u64) -> Map<Key, CounterView> {
    if full(m, k) {
        m
    } else {
        m.insert(k, window::after_hit(subnet::counter_at(m, k), now))
    }
}

/// What the counter `k` shows for a request.
pub open spec fn count_after(m: Map<Key, CounterView>, k: Key, now: u64) -> u32 {
    if full(m, k) {
        TOO_MANY
    } else {
        window::total(bumped(m, k, now)[k].buckets)
    }
}

/// The first route whose pattern matches a path, or the number of routes.
pub open spec fn route_of(routes: Seq<RouteView>, path: Seq<char>) -> int
    decreases routes.len(),
{
    if routes.len() == 0 || rules::any_match(seq![routes[0].pattern], path) {
        0
    } else {
        1 + route_of(routes.drop_first(), path)
    }
}

proof fn lemma_route_of(routes: Seq<RouteView>, path: Seq<char>, i: int)
    requires
        0 <= i <= routes.len(),
        forall|j: int| 0 <= j < i ==> !rules::any_match(seq![(#[trigger] routes[j]).pattern], path),
        i < routes.len() ==> rules::any_match(seq![routes[i].pattern], path),
    ensures
        route_of(routes, path) == i,
    decreases routes.len(),
{
    if i > 0 {
        assert(!rules::any_match(seq![routes[0].pattern], path));
        let rest = routes.drop_first();
        assert forall|j: int| 0 <= j < i - 1 implies !rules::any_match(seq![(#[trigger] rest[j]).pattern], path) by {
            assert(rest[j] == routes[j + 1]);
        }
        lemma_route_of(rest, path, i - 1);
    }
}

/// The counters after the part of a check that concerns the route at `at`, if there is one.
pub open spec fn route_counted(v: RateView, now: u64, ip: IpAddr, at: int) -> Map<Key, CounterView> {
    if at < v.routes.len() {
        bumped(v.counters, key_of((at + 1) as nat, ip), now)
    } else {
        v.counters
    }
}

/// Whether the route at `at`, if there is one, is over its ceiling.
pub open spec fn route_over(v: RateView, now: u64, ip: IpAddr, at: int, scale_bps: u32) -> bool {
    at < v.routes.len() && over(
        count_after(v.counters, key_of((at + 1) as nat, ip), now),
        scaled(v.routes[at].rpm, scale_bps),
        v.routes[at].burst,
    )
}

/// The counters after a check of a request that belongs to the route at `at`.
pub open spec fn counted_at(v: RateView, now: u64, ip: IpAddr, at: int, scale_bps: u32) -> Map<Key, CounterView> {
    if !v.enabled {
        v.counters
    } else if route_over(v, now, ip, at, scale_bps) {
        route_counted(v, now, ip, at)
    } else {
        bumped(route_counted(v, now, ip, at), key_of(0, ip), now)
    }
}

/// The limit that a request runs into that belongs to the route at `at`.
pub open spec fn limit_at(
    v: RateView,
    now: u64,
    ip: IpAddr,
    path: Seq<char>,
    at: int,
    scale_bps: u32,
) -> Option<LimitedView> {
    if !v.enabled {
        None
    } else if route_over(v, now, ip, at, scale_bps) {
        Some(LimitedView { retry_after: BUCKET_SECS, scope: "route"@, path })
    } else if over(
        count_after(route_counted(v, now, ip, at), key_of(0, ip), now),
        scaled(v.rpm, scale_bps),
        v.burst,
    ) {
        Some(LimitedView { retry_after: BUCKET_SECS, scope: "global"@, path })
    } else {
        None
    }
}

/// The limiter after a request.
pub open spec fn after_check(v: RateView, now: u64, ip: IpAddr, path: Seq<char>, scale_bps: u32) -> RateView {
    RateView { counters: counted_at(v, now, ip, route_of(v.routes, path), scale_bps), ..v }
}

/// The limit that a request runs into, if it does.
pub open spec fn limit_of(v: RateView, now: u64, ip: IpAddr, path: Seq<char>, scale_bps: u32) -> Option<LimitedView> {
    limit_at(v, now, ip, path, route_of(v.routes, path), scale_bps)
}

/// The view of a result.
pub open spec fn limit_view(r: Result<(), Limited>) -> Option<LimitedView> {
    match r {
        Ok(_) => None,
        Err(l) => Some(l@),
    }
}

/// The addresses of one /64 share their counters: it makes no difference which of them asks.
pub proof fn lemma_shared(v: RateView, now: u64, a: IpAddr, b: IpAddr, path: Seq<char>, scale_bps: u32)
    requires
        rl_number(a) == rl_number(b),
    ensures
        after_check(v, now, a, path, scale_bps) == after_check(v, now, b, path, scale_bps),
        limit_of(v, now, a, path, scale_bps) == limit_of(v, now, b, path, scale_bps),
{
}

/// Addresses that are not counted together do not touch each other's counters.
pub proof fn lemma_independent(v: RateView, now: u64, a: IpAddr, b: IpAddr, path: Seq<char>, scale_bps: u32, scope: nat)
    requires
        rl_number(a) != rl_number(b),
    ensures
        counter_under(after_check(v, now, a, path, scale_bps).counters, key_of(scope, b)) == counter_under(
            v.counters,
            key_of(scope, b),
        ),
{
}

/// The counter under a key, if there is one.
pub open spec fn counter_under(m: Map<Key, CounterView>, k: Key) -> Option<CounterView> {
    if m.contains_key(k) {
        Some(m[k])
    } else {
        None
    }
}

/// A limiter that is switched off limits nothing and counts nothing.
pub proof fn lemma_disabled(v: RateView, now: u64, ip: IpAddr, path: Seq<char>, scale_bps: u32)
    requires
        !v.enabled,
    ensures
        limit_of(v, now, ip, path, scale_bps) is None,
        after_check(v, now, ip, path, scale_bps) == v,
{
}

/// A ceiling: what is left of the requests per minute at a scale, and the burst.
pub open spec fn ceiling(rpm: u32, burst: u32, scale_bps: u32) -> int {
    rpm * (if scale_bps < 100 {
        100
    } else {
        scale_bps as int
    }) / 10_000 + burst
}

/// How many requests lie in the running bucket and the five before it, one at `now` among them.
pub open spec fn requests_in_window(times: Seq<u64>, now: u64) -> nat {
    window::events_up_to(times.push(now), (now / 10) as int)
}

/// Whether a counter counts the requests of a list, up to `now`, and is not near its bound.
pub open spec fn counts_times(c: CounterView, times: Seq<u64>, now: u64) -> bool {
    &&& window::represents(c, times)
    &&& c.head <= now
    &&& forall|i: int| 0 <= i < 6 ==> #[trigger] c.buckets[i] < u32::MAX
    &&& requests_in_window(times, now) <= u32::MAX
}

/// What a check says, in terms of the requests that came before: `on_route` and `on_site` are the
/// times of those that were counted, for the address, on the first route that the path belongs to
/// and on the whole site. A request beyond the ceiling of its route is stopped there and does not
/// count for the site; another one is stopped exactly where it goes beyond the ceiling of the
/// site.
pub proof fn lemma_limits(
    v: RateView,
    now: u64,
    ip: IpAddr,
    path: Seq<char>,
    scale_bps: u32,
    on_route: Seq<u64>,
    on_site: Seq<u64>,
)
    requires
        v.enabled,
        v.routes.len() <= usize::MAX,
        v.counters.dom().finite(),
        v.counters.dom().len() < MAX_COUNTERS,
        ({
            let at = route_of(v.routes, path);
            let route = subnet::counter_at(v.counters, key_of((at + 1) as nat, ip));
            let site = subnet::counter_at(v.counters, key_of(0, ip));
            &&& at < v.routes.len() ==> counts_times(route, on_route, now) && ceiling(
                v.routes[at].rpm,
                v.routes[at].burst,
                scale_bps,
            ) <= u32::MAX
            &&& counts_times(site, on_site, now) && ceiling(v.rpm, v.burst, scale_bps) <= u32::MAX
        }),
    ensures
        ({
            let at = route_of(v.routes, path);
            let after = after_check(v, now, ip, path, scale_bps);
            if at < v.routes.len() && requests_in_window(on_route, now) > ceiling(
                v.routes[at].rpm,
                v.routes[at].burst,
                scale_bps,
            ) {
                &&& limit_of(v, now, ip, path, scale_bps) == Some(
                    LimitedView { retry_after: 10, scope: "route"@, path },
                )
                &&& counter_under(after.counters, key_of(0, ip)) == counter_under(v.counters, key_of(0, ip))
            } else {
                limit_of(v, now, ip, path, scale_bps) == if requests_in_window(on_site, now) > ceiling(
                    v.rpm,
                    v.burst,
                    scale_bps,
                ) {
                    Some(LimitedView { retry_after: 10, scope: "global"@, path })
                } else {
                    None
                }
            }
        }),
{
    let at = route_of(v.routes, path);
    let kr = key_of((at + 1) as nat, ip);
    let kg = key_of(0, ip);
    let route = subnet::counter_at(v.counters, kr);
    let site = subnet::counter_at(v.counters, kg);
    lemma_route_bounds(v.routes, path);
    window::lemma_window(site, on_site, now);
    window::lemma_total(window::after_hit(site, now), on_site.push(now));
    if at < v.routes.len() {
        window::lemma_window(route, on_route, now);
        window::lemma_total(window::after_hit(route, now), on_route.push(now));
        assert(kr != kg);
        lemma_ceiling(v.routes[at].rpm, v.routes[at].burst, scale_bps);
    }
    lemma_ceiling(v.rpm, v.burst, scale_bps);
    assert(!full(v.counters, kr));
    let counted = route_counted(v, now, ip, at);
    assert(counted.dom().len() <= v.counters.dom().len() + 1);
    assert(!full(counted, kg));
    assert(subnet::counter_at(counted, kg) == site);
}

proof fn lemma_ceiling(rpm: u32, burst: u32, scale_bps: u32)
    requires
        ceiling(rpm, burst, scale_bps) <= u32::MAX,
    ensures
        scaled(rpm, scale_bps) + burst == ceiling(rpm, burst, scale_bps),
{
    let s: int = if scale_bps < 100 {
        100
    } else {
        scale_bps as int
    };
    assert(rpm * s >= 0) by (nonlinear_arith)
        requires
            s >= 0,
    ;
}

/// A tighter scale never lets a request pass that a wider one stops, as long as the ceilings
/// fit their type: a request that is stopped at a scale is stopped at every lower one.
pub proof fn lemma_tighter(v: RateView, now: u64, ip: IpAddr, path: Seq<char>, tight: u32, wide: u32)
    requires
        tight <= wide <= FULL_SCALE,
        limit_of(v, now, ip, path, wide) is Some,
    ensures
        limit_of(v, now, ip, path, tight) is Some,
{
    let at = route_of(v.routes, path);
    if 0 <= at < v.routes.len() {
        lemma_scaled(v.routes[at].rpm, tight, wide);
    }
    lemma_scaled(v.rpm, tight, wide);
    lemma_route_bounds(v.routes, path);
}

proof fn lemma_route_bounds(routes: Seq<RouteView>, path: Seq<char>)
    ensures
        0 <= route_of(routes, path) <= routes.len(),
    decreases routes.len(),
{
    if routes.len() > 0 {
        lemma_route_bounds(routes.drop_first(), path);
    }
}

proof fn lemma_scaled(rpm: u32, tight: u32, wide: u32)
    requires
        tight <= wide <= FULL_SCALE,
    ensures
        scaled(rpm, tight) <= scaled(rpm, wide),
{
    let s = if tight < 100 {
        100
    } else {
        tight
    };
    let t = if wide < 100 {
        100
    } else {
        wide
    };
    assert(rpm * s <= rpm * t) by (nonlinear_arith)
        requires
            s <= t,
    ;
    assert(rpm * t <= rpm * 10_000) by (nonlinear_arith)
        requires
            t <= 10_000,
    ;
}

fn scale_rpm(rpm: u32, scale_bps: u32) -> (r: u32)
    ensures
        r == scaled(rpm, scale_bps),
{
    let scale: u32 = if scale_bps < 100 {
        100
    } else {
        scale_bps
    };
    assert(rpm * scale <= 0xffff_ffff * 0xffff_ffff) by (nonlinear_arith)
        requires
            rpm <= 0xffff_ffff,
            scale <= 0xffff_ffff,
    ;
    (rpm as u64 * scale as u64 / 10_000 % 0x1_0000_0000) as u32
}

fn exceeds(count: u32, rpm: u32, burst: u32) -> (r: bool)
    ensures
        r == over(count, rpm, burst),
{
    count > rpm.saturating_add(burst)
}

fn younger(c: &Counter, limits: (u64, u64)) -> (r: bool)
    ensures
        r == (subnet::since(limits.0, c@.head) < limits.1),
{
    limits.0.saturating_sub(c.head()) < limits.1
}

/// The views of a list of routes.
closed spec fn route_views(routes: Seq<CompiledRoute>) -> Seq<RouteView> {
    Seq::new(
        routes.len(),
        |i: int|
            RouteView {
                pattern: rules::set_patterns(routes[i].re)[0],
                rpm: routes[i].rpm,
                burst: routes[i].burst,
            },
    )
}

/// The routes of a configuration.
pub open spec fn configured_routes(routes: Seq<RouteRateLimit>) -> Seq<RouteView> {
    Seq::new(
        routes.len(),
        |i: int|
            RouteView {
                pattern: routes[i].pattern@,
                rpm: routes[i].requests_per_minute,
                burst: routes[i].burst,
            },
    )
}

impl View for RateLimiter {
    type V = RateView;

    closed spec fn view(&self) -> RateView {
        RateView {
            enabled: self.enabled,
            rpm: self.global_rpm,
            burst: self.global_burst,
            routes: route_views(self.routes@),
            counters: self.counters@,
        }
    }
}

proof fn lemma_first_bound(outcomes: Seq<Result<RegexSet, regex::Error>>)
    ensures
        0 <= first_failed(outcomes) <= outcomes.len(),
        first_failed(outcomes) < outcomes.len() ==> outcomes[first_failed(outcomes)] is Err,
    decreases outcomes.len(),
{
    if outcomes.len() > 0 && outcomes[0] is Ok {
        lemma_first_bound(outcomes.drop_first());
    }
}

/// Compiles the pattern of each route.
fn compile_routes(routes: &Vec<RouteRateLimit>) -> (r: Vec<Result<RegexSet, regex::Error>>)
    ensures
        outcomes_of(r@, routes@),
{
    let mut out: Vec<Result<RegexSet, regex::Error>> = Vec::new();
    for i in 0..routes.len()
        invariant
            out@.len() == i,
            forall|j: int|
                0 <= j < i ==> ((#[trigger] out@[j]) matches Ok(set) ==> rules::set_patterns(set) == seq![
                    routes@[j].pattern@,
                ]),
    {
        let mut patterns: Vec<String> = Vec::new();
        patterns.push(routes[i].pattern.clone());
        assert(patterns.deep_view() =~= seq![routes@[i as int].pattern@]);
        out.push(compile(&patterns));
    }
    out
}

impl RateLimiter {
    pub closed spec fn wf(&self) -> bool {
        &&& self.counters.wf()
        &&& forall|i: int|
            0 <= i < self.routes@.len() ==> rules::set_patterns((#[trigger] self.routes@[i]).re).len() == 1
    }

    /// A limiter for a configuration. It fails where the pattern of a route cannot be compiled.
    pub fn new(cfg: &RateLimitCfg) -> (r: Result<RateLimiter, RateLimitError>)
        ensures
            exists|outcomes: Seq<Result<RegexSet, regex::Error>>|
                outcomes_of(outcomes, cfg.routes@) && #[trigger] limiter_from(r, *cfg, outcomes),
            r matches Ok(l) ==> l.wf() && l@ == new_limiter(*cfg),
            r matches Err(e) ==> exists|i: int, x: regex::Error|
                0 <= i < cfg.routes@.len() && e.message@ == #[trigger] route_error(cfg.routes@[i].pattern@, x),
            cfg.routes@.len() == 0 ==> r is Ok,
    {
        let outcomes = compile_routes(&cfg.routes);
        let ghost all = outcomes@;
        let r = RateLimiter::of_outcomes(cfg, outcomes);
        proof {
            lemma_first_bound(all);
            assert(limiter_from(r, *cfg, all));
        }
        r
    }

    /// A limiter for a configuration, made of what the compilation of the patterns came to.
    pub fn of_outcomes(
        cfg: &RateLimitCfg,
        outcomes: Vec<Result<RegexSet, regex::Error>>,
    ) -> (r: Result<RateLimiter, RateLimitError>)
        requires
            outcomes_of(outcomes@, cfg.routes@),
        ensures
            limiter_from(r, *cfg, outcomes@),
    {
        let ghost all = outcomes@;
        let mut left = outcomes;
        let mut routes: Vec<CompiledRoute> = Vec::new();
        let n: usize = cfg.routes.len();
        for i in 0..n
            invariant
                n == cfg.routes@.len(),
                all == outcomes@,
                outcomes_of(all, cfg.routes@),
                left@ == all.skip(i as int),
                routes@.len() == i,
                forall|j: int| 0 <= j < i ==> (#[trigger] all[j]) is Ok,
                forall|j: int|
                    0 <= j < i ==> rules::set_patterns((#[trigger] routes@[j]).re) == seq![cfg.routes@[j].pattern@]
                        && routes@[j].rpm == cfg.routes@[j].requests_per_minute && routes@[j].burst
                        == cfg.routes@[j].burst,
        {
            let r = &cfg.routes[i];
            let outcome = left.remove(0);
            assert(outcome == all[i as int]);
            assert(left@ =~= all.skip(i + 1));
            match outcome {
                Ok(re) => {
                    routes.push(CompiledRoute { re, rpm: r.requests_per_minute, burst: r.burst });
                },
                Err(x) => {
                    proof {
                        lemma_first_failed(all, i as int);
                    }
                    return Err(
                        RateLimitError {
                            message: cat4(
                                "rate_limit.routes pattern ",
                                quoted(r.pattern.as_str()).as_str(),
                                ": ",
                                describe_error(&x).as_str(),
                            ),
                        },
                    );
                },
            }
        }
        proof {
            lemma_first_failed(all, n as int);
        }
        let l = RateLimiter {
            enabled: cfg.enabled,
            global_rpm: cfg.requests_per_minute,
            global_burst: cfg.burst,
            routes,
            counters: Table::new(),
        };
        assert(l@.routes =~= configured_routes(cfg.routes@));
        Ok(l)
    }

    fn bump(&mut self, key: Key, now: u64) -> (r: u32)
        requires
            old(self).wf(),
        ensures
            final(self).wf(),
            final(self)@ == (RateView { counters: bumped(old(self)@.counters, key, now), ..old(self)@ }),
            r == count_after(old(self)@.counters, key, now),
    {
        let mut counter = match self.counters.take(key) {
            Some(c) => c,
            None => {
                assert(self.counters@ =~= old(self).counters@);
                if self.counters.len() > MAX_COUNTERS {
                    return TOO_MANY;
                }
                Counter::new()
            },
        };
        let count: u32 = counter.hit(now);
        self.counters.put(key, counter);
        assert(self.counters@ =~= bumped(old(self)@.counters, key, now));
        count
    }

    /// The first route that a path belongs to, or the number of routes.
    fn find_route(&self, path: &str) -> (r: usize)
        requires
            self.wf(),
        ensures
            r == route_of(self@.routes, path@),
            r <= self@.routes.len(),
            self@.routes.len() == self.routes@.len(),
    {
        let ghost views = self@.routes;
        let mut i: usize = 0;
        while i < self.routes.len() && !matches_any(&self.routes[i].re, path)
            invariant
                i <= self.routes@.len(),
                self.wf(),
                views == self@.routes,
                views.len() == self.routes@.len(),
                forall|j: int| 0 <= j < i ==> !rules::any_match(seq![(#[trigger] views[j]).pattern], path@),
            decreases self.routes@.len() - i,
        {
            assert(rules::set_patterns(self.routes@[i as int].re) =~= seq![views[i as int].pattern]);
            i += 1;
        }
        proof {
            if i < self.routes@.len() {
                assert(rules::set_patterns(self.routes@[i as int].re) =~= seq![views[i as int].pattern]);
            }
            lemma_route_of(views, path@, i as int);
        }
        i
    }

    /// Checks a request at a given time that belongs to the route at `at`; the number of routes
    /// stands for none.
    pub fn check_route_at(&mut self, now: u64, ip: IpAddr, path: &str, at: usize, scale_bps: u32) -> (r: Result<
        (),
        Limited,
    >)
        requires
            old(self).wf(),
            at <= old(self)@.routes.len(),
        ensures
            final(self).wf(),
            final(self)@ == (RateView {
                counters: counted_at(old(self)@, now, ip, at as int, scale_bps),
                ..old(self)@
            }),
            limit_view(r) == limit_at(old(self)@, now, ip, path@, at as int, scale_bps),
    {
        if !self.enabled {
            return Ok(());
        }
        let id: u128 = rl_key(ip);
        if at < self.routes.len() {
            let count: u32 = self.bump((at as u64 + 1, id), now);
            let rpm: u32 = scale_rpm(self.routes[at].rpm, scale_bps);
            if exceeds(count, rpm, self.routes[at].burst) {
                return Err(Limited { retry_after: BUCKET_SECS, scope: "route", path: path.to_string() });
            }
        }
        assert(self@ =~= (RateView { counters: route_counted(old(self)@, now, ip, at as int), ..old(self)@ }));
        let count: u32 = self.bump((0, id), now);
        let rpm: u32 = scale_rpm(self.global_rpm, scale_bps);
        if exceeds(count, rpm, self.global_burst) {
            return Err(Limited { retry_after: BUCKET_SECS, scope: "global", path: path.to_string() });
        }
        Ok(())
    }

    /// Checks a request at a given time, with the ceilings scaled by basis points.
    pub fn check_scaled_at(&mut self, now: u64, ip: IpAddr, path: &str, scale_bps: u32) -> (r: Result<(), Limited>)
        requires
            old(self).wf(),
        ensures
            final(self).wf(),
            final(self)@ == after_check(old(self)@, now, ip, path@, scale_bps),
            limit_view(r) == limit_of(old(self)@, now, ip, path@, scale_bps),
    {
        let at: usize = self.find_route(path);
        self.check_route_at(now, ip, path, at, scale_bps)
    }

    /// Checks a request, with the ceilings scaled by basis points.
    pub fn check_scaled(&mut self, ip: IpAddr, path: &str, scale_bps: u32) -> (r: Result<(), Limited>)
        requires
            old(self).wf(),
        ensures
            final(self).wf(),
            exists|now: u64|
                final(self)@ == #[trigger] after_check(old(self)@, now, ip, path@, scale_bps) && limit_view(r)
                    == limit_of(old(self)@, now, ip, path@, scale_bps),
    {
        self.check_scaled_at(now_secs(), ip, path, scale_bps)
    }

    /// Checks a request against the full ceilings.
    pub fn check(&mut self, ip: IpAddr, path: &str) -> (r: Result<(), Limited>)
        requires
            old(self).wf(),
        ensures
            final(self).wf(),
            exists|now: u64|
                final(self)@ == #[trigger] after_check(old(self)@, now, ip, path@, FULL_SCALE) && limit_view(r)
                    == limit_of(old(self)@, now, ip, path@, FULL_SCALE),
    {
        self.check_scaled(ip, path, FULL_SCALE)
    }

    /// Drops, at a given time, the counters without a request for `max_age_secs`.
    pub fn gc_at(&mut self, now: u64, max_age_secs: u64)
        requires
            old(self).wf(),
        ensures
            final(self).wf(),
            final(self)@ == (RateView { counters: younger_part(old(self)@.counters, now, max_age_secs), ..old(self)@ }),
    {
        self.counters.retain(
            (now, max_age_secs),
            younger,
            Ghost(|c: CounterView| subnet::since(now, c.head) < max_age_secs),
        );
    }

    /// Drops the counters without a request for `max_age_secs`.
    pub fn gc(&mut self, max_age_secs: u64)
        requires
            old(self).wf(),
        ensures
            final(self).wf(),
            exists|now: u64|
                final(self)@ == (RateView {
                    counters: #[trigger] younger_part(old(self)@.counters, now, max_age_secs),
                    ..old(self)@
                }),
    {
        self.gc_at(now_secs(), max_age_secs);
    }
}

/// The counters with a request within `max_age_secs` before `now`.
pub open spec fn younger_part(m: Map<Key, CounterView>, now: u64, max_age_secs: u64) -> Map<Key, CounterView> {
    table::kept(m, |c: CounterView| subnet::since(now, c.head) < max_age_secs)
}

// ---------------------------------------------------------------------------
// Laws
// ---------------------------------------------------------------------------

/// The route of a request is the first one whose pattern matches the path.
pub proof fn lemma_first_route(routes: Seq<RouteView>, path: Seq<char>)
    ensures
        0 <= route_of(routes, path) <= routes.len(),
        route_of(routes, path) < routes.len() ==> rules::any_match(seq![routes[route_of(routes, path)].pattern], path),
        forall|j: int| 0 <= j < route_of(routes, path) ==> !rules::any_match(seq![(#[trigger] routes[j]).pattern], path),
    decreases routes.len(),
{
    if routes.len() > 0 && !rules::any_match(seq![routes[0].pattern], path) {
        let rest = routes.drop_first();
        lemma_first_route(rest, path);
        assert forall|j: int| 0 <= j < route_of(routes, path) implies !rules::any_match(
            seq![(#[trigger] routes[j]).pattern],
            path,
        ) by {
            if j > 0 {
                assert(rest[j - 1] == routes[j]);
            }
        }
    }
}

/// What is left of a ceiling at a scale: its share, with one percent as the least.
pub proof fn lemma_share(rpm: u32, scale_bps: u32)
    requires
        scale_bps <= 10_000,
    ensures
        100 <= scale_bps ==> scaled(rpm, scale_bps) == rpm * scale_bps / 10_000,
        scale_bps < 100 ==> scaled(rpm, scale_bps) == rpm / 100,
        scaled(rpm, 10_000) == rpm,
{
    assert(0 <= rpm * scale_bps <= rpm * 10_000) by (nonlinear_arith)
        requires
            scale_bps <= 10_000,
    ;
    assert(rpm * 100 / 10_000 == rpm / 100);
}

/// While the table of counters is full, a request that has none yet is turned away, and no counter
/// is added.
pub proof fn lemma_full_table(v: RateView, now: u64, ip: IpAddr, path: Seq<char>)
    requires
        v.enabled,
        v.counters.dom().len() > 150_000,
        !v.counters.contains_key(key_of(0, ip)),
        route_of(v.routes, path) == v.routes.len(),
        v.rpm + v.burst < 999_999,
    ensures
        limit_of(v, now, ip, path, 10_000) is Some,
        after_check(v, now, ip, path, 10_000) == v,
{
    lemma_share(v.rpm, 10_000);
}

/// A limit is reported with the path, where it was met, and the ten seconds to wait.
pub proof fn lemma_report(v: RateView, now: u64, ip: IpAddr, path: Seq<char>, scale_bps: u32)
    ensures
        limit_of(v, now, ip, path, scale_bps) matches Some(l) ==> l.retry_after == 10 && l.path == path && (l.scope
            == "route"@ || l.scope == "global"@),
{
}

/// A new limiter has the ceilings of the configuration and has counted nothing: a first request passes
/// where the ceilings leave room for one.
pub proof fn lemma_new_limiter(cfg: RateLimitCfg, now: u64, ip: IpAddr, path: Seq<char>)
    requires
        cfg.routes@.len() == 0,
        1 <= cfg.requests_per_minute + cfg.burst <= u32::MAX,
    ensures
        new_limiter(cfg).enabled == cfg.enabled,
        new_limiter(cfg).rpm == cfg.requests_per_minute,
        new_limiter(cfg).burst == cfg.burst,
        limit_of(new_limiter(cfg), now, ip, path, 10_000) is None,
{
    lemma_share(cfg.requests_per_minute, 10_000);
    let c = window::fresh();
    window::lemma_fresh();
    window::lemma_window(c, seq![], now);
    let none: Seq<u64> = seq![];
    let one = none.push(now);
    assert(one.drop_last() =~= none);
    assert(one.last() == now);
    assert(window::events_up_to(none, (now / 10) as int) == 0);
    assert(window::events_up_to(one, (now / 10) as int) == 1);
    window::lemma_total(window::after_hit(c, now), one);
}

/// A request counts for its route, whether it is stopped there or not, and for the site unless it was
/// stopped at its route; a request that is stopped at the site counts there too.
pub proof fn lemma_counts_where(v: RateView, now: u64, ip: IpAddr, path: Seq<char>, scale_bps: u32)
    requires
        v.enabled,
        v.routes.len() < u64::MAX,
        v.counters.dom().finite(),
        v.counters.dom().len() < 150_000,
    ensures
        ({
            let at = route_of(v.routes, path);
            let route = key_of((at + 1) as nat, ip);
            let site = key_of(0, ip);
            let after = after_check(v, now, ip, path, scale_bps).counters;
            let limit = limit_of(v, now, ip, path, scale_bps);
            &&& at < v.routes.len() ==> counter_under(after, route) == Some(
                window::after_hit(subnet::counter_at(v.counters, route), now),
            )
            &&& limit is Some && limit->0.scope == "route"@ ==> counter_under(after, site) == counter_under(
                v.counters,
                site,
            )
            &&& limit is None || limit->0.scope == "global"@ ==> counter_under(after, site) == Some(
                window::after_hit(subnet::counter_at(v.counters, site), now),
            )
        }),
{
    reveal_strlit("route");
    reveal_strlit("global");
    assert("route"@.len() == 5 && "global"@.len() == 6);
    let at = route_of(v.routes, path);
    let kr = key_of((at + 1) as nat, ip);
    let kg = key_of(0, ip);
    lemma_route_bounds(v.routes, path);
    let counted = route_counted(v, now, ip, at);
    assert(kr != kg);
    assert(!full(v.counters, kr));
    assert(counted.dom().len() <= v.counters.dom().len() + 1);
    assert(!full(counted, kg));
    assert(subnet::counter_at(counted, kg) == subnet::counter_at(v.counters, kg));
}

} // verus!
