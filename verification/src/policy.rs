//! What the engine promises of every request, in terms of the settings, the request itself and
//! what is remembered of earlier ones.

use crate::behavior;
use crate::bic;
use crate::browser_check;
use crate::challenge;
use crate::ddos;
use crate::decision::{self, Action, DecisionView, ReasonView};
use crate::engine::{self, EngineView, SignalsView};
use crate::goodbot;
use crate::honeypots;
use crate::net;
use crate::ratelimit;
use crate::reputation;
use crate::request::{self, RequestCtx};
use crate::rules;
use crate::rules::ua;
use crate::runtime::{RuntimeView, UamLevel};
use crate::signature;
use crate::subnet;
use crate::text;
use vstd::prelude::*;

verus! {

// ---------------------------------------------------------------------------
// Levels
// ---------------------------------------------------------------------------

/// How tight the settings are, from 0 to 4: the chosen level, or 2 for the under-attack switch
/// where none was chosen.
pub open spec fn tightness(rt: RuntimeView) -> int {
    if 1 <= rt.uam_level <= 4 {
        rt.uam_level as int
    } else if rt.under_attack {
        2
    } else {
        0
    }
}

/// A threshold after five points were taken off for each step.
pub open spec fn lowered(threshold: u32, steps: int) -> int {
    if threshold > 5 * steps {
        threshold - 5 * steps
    } else {
        0
    }
}

/// How many requests in flight an address may have; zero for any number.
pub open spec fn most_in_flight(rt: RuntimeView) -> int {
    if tightness(rt) == 3 && rt.max_concurrent_per_ip > 50 {
        50
    } else if tightness(rt) == 4 && rt.max_concurrent_per_ip > 25 {
        25
    } else {
        rt.max_concurrent_per_ip as int
    }
}

/// The part of the rate ceilings that each step leaves, and the cap of requests in flight.
pub proof fn lemma_tightness(rt: RuntimeView)
    ensures
        tightness(rt) == 0 ==> engine::rate_scale(rt) == 10_000,
        tightness(rt) == 1 ==> engine::rate_scale(rt) == 7_500,
        tightness(rt) == 2 ==> engine::rate_scale(rt) == 5_000,
        tightness(rt) == 3 ==> engine::rate_scale(rt) == 2_500,
        tightness(rt) == 4 ==> engine::rate_scale(rt) == 1_000,
        engine::conn_cap(rt) == most_in_flight(rt),
        engine::block_threshold(rt) == lowered(rt.block_threshold, tightness(rt)),
        engine::challenge_threshold(rt) == lowered(rt.challenge_threshold, tightness(rt)),
{
}

/// The difficulty of a fresh challenge is the base, and one more at the two highest levels, up to
/// five.
pub proof fn lemma_difficulty_exactly(base: u8)
    ensures
        forall|l: UamLevel| (l == UamLevel::High || l == UamLevel::Extreme) && base < 5 ==> #[trigger]
            engine::difficulty_for(base, l) == base + 1,
        forall|l: UamLevel| l != UamLevel::High && l != UamLevel::Extreme && base <= 5 ==> #[trigger]
            engine::difficulty_for(base, l) == base,
        forall|l: UamLevel| base >= 5 ==> #[trigger] engine::difficulty_for(base, l) == 5,
{
}

// ---------------------------------------------------------------------------
// Thresholds
// ---------------------------------------------------------------------------

/// The four answers by the score alone: below both thresholds a request is let through, between
/// them it is challenged, and from the block threshold on it is blocked or, from the score for it
/// on, held.
#[verifier::spinoff_prover]
#[verifier::rlimit(40)]
pub proof fn lemma_settled(rt: RuntimeView, d: DecisionView)
    ensures
        ({
            let r = engine::verdict_on(rt, d);
            let block_at = lowered(rt.block_threshold, tightness(rt));
            let challenge_at = lowered(rt.challenge_threshold, tightness(rt));
            let held = rt.tarpit_score > 0 && d.score >= rt.tarpit_score;
            &&& r.action == Action::Allow <==> d.score < challenge_at && d.score < block_at
            &&& r.action == Action::Challenge <==> challenge_at <= d.score < block_at
            &&& r.action == Action::Block <==> d.score >= block_at && !held
            &&& r.action == Action::Tarpit <==> d.score >= block_at && held
            &&& r.action == Action::Allow ==> r.status == 200 && r.score == 0 && r.reasons.len() == 0
            &&& r.action == Action::Challenge ==> r.status == 403 && r.score == d.score && r.reasons == d.reasons
            &&& r.action == Action::Tarpit ==> r.status == 200 && r.score == d.score && r.reasons == d.reasons
            &&& r.action == Action::Block ==> r.status == 403 && r.reasons.len() == 1 && r.score == r.reasons[0].score
            &&& r.action == Action::Block && d.reasons.len() > 0 ==> r.reasons[0] == d.reasons[0]
            &&& r.action == Action::Block && d.reasons.len() == 0 ==> r.reasons[0].rule_id == "ANOMALY"@ && r.score
                == d.score
            &&& r.request_id == d.request_id
        }),
{
}

// ---------------------------------------------------------------------------
// The way to the scoring
// ---------------------------------------------------------------------------

/// Whether the client is on no list and under no ban.
pub open spec fn on_no_list(v: EngineView, ctx: RequestCtx, now_s: u64) -> bool {
    &&& !net::any_covers(v.rt.allow, ctx.client_ip)
    &&& !net::any_covers(v.rep.allow, ctx.client_ip)
    &&& !net::any_covers(v.rt.deny, ctx.client_ip)
    &&& !net::any_covers(v.rep.deny, ctx.client_ip)
    &&& !reputation::banned_in(v.rep.state, ctx.client_ip.spec_key(), now_s)
}

/// Whether the client is a bot whose claim was confirmed.
pub open spec fn confirmed_bot(v: EngineView, ctx: RequestCtx, now_s: u64) -> bool {
    v.rt.defenses.goodbot && goodbot::verdict_for(v.bots, now_s, ctx.client_ip, ctx.user_agent@) is GoodBotVerified
}

pub open spec fn in_trap(v: EngineView, ctx: RequestCtx) -> bool {
    v.rt.defenses.honeypots && honeypots::trapped(v.traps, ctx.path@)
}

/// The requests in flight of the client.
pub open spec fn in_flight(v: EngineView, ctx: RequestCtx) -> int {
    if v.conns.contains_key(ctx.client_ip.spec_key()) {
        v.conns[ctx.client_ip.spec_key()] as int
    } else {
        0
    }
}

pub open spec fn crowded(v: EngineView, ctx: RequestCtx) -> bool {
    most_in_flight(v.rt) > 0 && in_flight(v, ctx) > most_in_flight(v.rt)
}

/// Whether some header has a value longer than the limit.
pub open spec fn long_header(v: EngineView, ctx: RequestCtx) -> bool {
    exists|i: int|
        0 <= i < ctx.headers@.len() && text::utf8_len((#[trigger] ctx.headers@[i]).1)
            > v.cfg.limits.max_header_value_bytes
}

/// Whether the announced body is longer than the limit.
pub open spec fn long_body(v: EngineView, ctx: RequestCtx) -> bool {
    ctx.content_length is Some && ctx.content_length->0 > v.cfg.limits.max_body_bytes
}

pub open spec fn method_allowed(v: EngineView, ctx: RequestCtx) -> bool {
    exists|i: int|
        0 <= i < v.cfg.limits.allowed_methods@.len() && text::equal_fold(
            (#[trigger] v.cfg.limits.allowed_methods@[i])@,
            ctx.method@,
        )
}

/// Whether a request keeps to the absolute limits.
pub open spec fn well_sized(v: EngineView, ctx: RequestCtx) -> bool {
    &&& method_allowed(v, ctx)
    &&& text::utf8_len(ctx.uri@) <= v.cfg.limits.max_uri_bytes
    &&& ctx.headers@.len() <= v.cfg.limits.max_headers
    &&& !long_header(v, ctx)
    &&& !long_body(v, ctx)
}

/// Whether a request meets the rate limit: it runs into nothing before.
pub open spec fn meets_rate_limit(v: EngineView, ctx: RequestCtx, now_s: u64) -> bool {
    &&& on_no_list(v, ctx, now_s)
    &&& !confirmed_bot(v, ctx, now_s)
    &&& !in_trap(v, ctx)
    &&& !crowded(v, ctx)
    &&& well_sized(v, ctx)
}

/// Whether a request is over one of the rate ceilings.
pub open spec fn over_rate(v: EngineView, ctx: RequestCtx, now_s: u64) -> bool {
    v.rt.rules.rate_limit && ratelimit::limit_of(
        v.rate,
        now_s,
        ctx.client_ip,
        ctx.path@,
        engine::rate_scale(v.rt),
    ) is Some
}

/// Whether the client shows a clearance.
pub open spec fn shows_clearance(v: EngineView, ctx: RequestCtx, now_s: u64) -> bool {
    let c = request::lookup(ctx.cookies@, v.cookie);
    c is Some && challenge::clearance_accepted(v.secret, now_s, c->0)
}

/// Whether the client shows that it passed the silent check.
pub open spec fn shows_integrity(v: EngineView, ctx: RequestCtx, now_s: u64) -> bool {
    let c = request::lookup(ctx.cookies@, "__2t1_bic"@);
    v.rt.defenses.bic && c is Some && bic::cookie_accepted(v.bic_secret, now_s, c->0, ctx.client_ip)
}

/// Whether the lockdown is on: by its own switch, or by itself at the two highest levels.
pub open spec fn in_lockdown(rt: RuntimeView) -> bool {
    rt.defenses.browser_integrity && (rt.lockdown || (rt.auto_lockdown && (rt.uam_level == 3 || rt.uam_level == 4)))
}

/// Whether a request is scored: it passes the limits without a clearance, and the lockdown or the
/// forced challenge does not answer it.
pub open spec fn is_scored(v: EngineView, ctx: RequestCtx, now_s: u64) -> bool {
    &&& meets_rate_limit(v, ctx, now_s)
    &&& !over_rate(v, ctx, now_s)
    &&& !shows_clearance(v, ctx, now_s)
    &&& if in_lockdown(v.rt) {
        browser_check::verdict_of(ctx) is Trusted || (browser_check::verdict_of(ctx) is Unverified && shows_integrity(
            v,
            ctx,
            now_s,
        ))
    } else {
        tightness(v.rt) < 2
    }
}

proof fn lemma_long(entries: Seq<request::Pair>, max: nat)
    ensures
        0 <= engine::first_long(entries, max) <= entries.len(),
        engine::first_long(entries, max) < entries.len() <==> exists|i: int|
            0 <= i < entries.len() && text::utf8_len((#[trigger] entries[i]).1) > max,
        engine::first_long(entries, max) < entries.len() ==> text::utf8_len(
            entries[engine::first_long(entries, max)].1,
        ) > max,
    decreases entries.len(),
{
    if entries.len() > 0 && !(text::utf8_len(entries[0].1) > max) {
        let rest = entries.drop_first();
        lemma_long(rest, max);
        if engine::first_long(rest, max) < rest.len() {
            let i = choose|i: int| 0 <= i < rest.len() && text::utf8_len((#[trigger] rest[i]).1) > max;
            assert(entries[i + 1] == rest[i]);
            assert(entries[engine::first_long(entries, max)] == rest[engine::first_long(rest, max)]);
        }
        if exists|i: int| 0 <= i < entries.len() && text::utf8_len((#[trigger] entries[i]).1) > max {
            let i = choose|i: int| 0 <= i < entries.len() && text::utf8_len((#[trigger] entries[i]).1) > max;
            assert(rest[i - 1] == entries[i]);
        }
    }
}

proof fn lemma_sized(v: EngineView, ctx: RequestCtx)
    ensures
        engine::gate_limits(v, ctx) is None <==> well_sized(v, ctx),
        text::any_fold(v.cfg.limits.allowed_methods.deep_view(), ctx.method@) <==> method_allowed(v, ctx),
        engine::first_long(ctx.headers@, v.cfg.limits.max_header_value_bytes as nat) < ctx.headers@.len()
            <==> long_header(v, ctx),
{
    lemma_long(ctx.headers@, v.cfg.limits.max_header_value_bytes as nat);
    let l = v.cfg.limits.allowed_methods.deep_view();
    assert(l.len() == v.cfg.limits.allowed_methods@.len());
    assert forall|i: int| 0 <= i < l.len() implies #[trigger] l[i] == v.cfg.limits.allowed_methods@[i]@ by {}
    if method_allowed(v, ctx) {
        let i = choose|i: int|
            0 <= i < v.cfg.limits.allowed_methods@.len() && text::equal_fold(
                (#[trigger] v.cfg.limits.allowed_methods@[i])@,
                ctx.method@,
            );
        assert(text::equal_fold(l[i], ctx.method@));
    }
    if text::any_fold(l, ctx.method@) {
        let i = choose|i: int| 0 <= i < l.len() && text::equal_fold(#[trigger] l[i], ctx.method@);
        assert(text::equal_fold(v.cfg.limits.allowed_methods@[i]@, ctx.method@));
    }
}

#[verifier::spinoff_prover]
#[verifier::rlimit(40)]
proof fn lemma_gates(v: EngineView, ctx: RequestCtx, now_s: u64)
    ensures
        engine::gate_lists(v, ctx, now_s) is None <==> on_no_list(v, ctx, now_s),
        engine::bot_verdict(v, ctx, now_s) is GoodBotVerified <==> confirmed_bot(v, ctx, now_s),
        ({
            let w = engine::after_bots(v, ctx, now_s);
            &&& engine::gate_traps(w, ctx) is Some <==> in_trap(v, ctx)
            &&& engine::gate_conns(w, ctx) is Some <==> crowded(v, ctx)
            &&& engine::gate_limits(w, ctx) is None <==> well_sized(v, ctx)
            &&& engine::gate_rate(w, ctx, now_s) is Some <==> over_rate(v, ctx, now_s)
            &&& engine::cleared(w, ctx, now_s) <==> shows_clearance(v, ctx, now_s)
        }),
{
    lemma_sized(v, ctx);
    lemma_sized(engine::after_bots(v, ctx, now_s), ctx);
    lemma_tightness(v.rt);
}

/// A path into a trap is blocked before every limit and every clearance, and the address is
/// banned for the configured time.
#[verifier::spinoff_prover]
#[verifier::rlimit(40)]
pub proof fn lemma_trap_answers(v: EngineView, ctx: RequestCtx, sig: SignalsView, now_ms: u64)
    requires
        on_no_list(v, ctx, now_ms / 1000),
        !confirmed_bot(v, ctx, now_ms / 1000),
        in_trap(v, ctx),
    ensures
        engine::decision_on(v, ctx, sig, now_ms).action == Action::Block,
        engine::decision_on(v, ctx, sig, now_ms).status == 403,
        engine::decision_on(v, ctx, sig, now_ms).score == 100,
        decision::gives(engine::decision_on(v, ctx, sig, now_ms).reasons, "HONEYPOT"@, 100),
        engine::after_request(v, ctx, sig, now_ms).rep == reputation::after_ban(
            v.rep,
            now_ms / 1000,
            ctx.client_ip,
            v.cfg.reputation.auto_ban_duration_secs,
        ),
{
    lemma_gates(v, ctx, now_ms / 1000);
    let d = engine::decision_on(v, ctx, sig, now_ms);
    assert(d.reasons[0].rule_id == "HONEYPOT"@);
}

/// An address with more requests in flight than it may have is told so, and nothing is held
/// against it.
#[verifier::spinoff_prover]
#[verifier::rlimit(40)]
pub proof fn lemma_crowd_answered(v: EngineView, ctx: RequestCtx, sig: SignalsView, now_ms: u64)
    requires
        on_no_list(v, ctx, now_ms / 1000),
        !confirmed_bot(v, ctx, now_ms / 1000),
        !in_trap(v, ctx),
        crowded(v, ctx),
    ensures
        engine::decision_on(v, ctx, sig, now_ms).action == Action::Block,
        engine::decision_on(v, ctx, sig, now_ms).status == 429,
        decision::gives(engine::decision_on(v, ctx, sig, now_ms).reasons, "CONN-CAP"@, 100),
        engine::after_request(v, ctx, sig, now_ms).rep == v.rep,
        engine::after_request(v, ctx, sig, now_ms).rate == v.rate,
        engine::after_request(v, ctx, sig, now_ms).rate_limited == v.rate_limited,
{
    lemma_gates(v, ctx, now_ms / 1000);
    let d = engine::decision_on(v, ctx, sig, now_ms);
    assert(d.reasons[0].rule_id == "CONN-CAP"@);
}

/// Each absolute limit has its status: the method, the length of the address, the number and the
/// length of the headers, and the length of the body, in this order. Such a request is neither
/// counted nor held against its client.
#[verifier::spinoff_prover]
#[verifier::rlimit(40)]
pub proof fn lemma_limits_answer(v: EngineView, ctx: RequestCtx, sig: SignalsView, now_ms: u64)
    requires
        on_no_list(v, ctx, now_ms / 1000),
        !confirmed_bot(v, ctx, now_ms / 1000),
        !in_trap(v, ctx),
        !crowded(v, ctx),
        !well_sized(v, ctx),
    ensures
        ({
            let d = engine::decision_on(v, ctx, sig, now_ms);
            let long_uri = text::utf8_len(ctx.uri@) > v.cfg.limits.max_uri_bytes;
            let many = ctx.headers@.len() > v.cfg.limits.max_headers;
            let w = engine::after_request(v, ctx, sig, now_ms);
            &&& d.action == Action::Block
            &&& d.score == 100
            &&& d.status == 405 <==> !method_allowed(v, ctx)
            &&& d.status == 414 <==> method_allowed(v, ctx) && long_uri
            &&& d.status == 431 <==> method_allowed(v, ctx) && !long_uri && (many || long_header(v, ctx))
            &&& d.status == 413 <==> method_allowed(v, ctx) && !long_uri && !many && !long_header(v, ctx)
            &&& w.rep == v.rep
            &&& w.rate == v.rate
            &&& w.rate_limited == v.rate_limited
        }),
{
    lemma_gates(v, ctx, now_ms / 1000);
    lemma_sized(v, ctx);
    lemma_sized(engine::after_bots(v, ctx, now_ms / 1000), ctx);
}

/// A request over its rate is answered so before anyone asks for a clearance: a cleared client is
/// limited like every other.
#[verifier::spinoff_prover]
#[verifier::rlimit(40)]
pub proof fn lemma_rate_before_clearance(v: EngineView, ctx: RequestCtx, sig: SignalsView, now_ms: u64)
    requires
        meets_rate_limit(v, ctx, now_ms / 1000),
        over_rate(v, ctx, now_ms / 1000),
    ensures
        engine::decision_on(v, ctx, sig, now_ms).action == Action::Block,
        engine::decision_on(v, ctx, sig, now_ms).status == 429,
        decision::gives(engine::decision_on(v, ctx, sig, now_ms).reasons, "RL-01"@, 30),
        engine::gate_rate(engine::after_bots(v, ctx, now_ms / 1000), ctx, now_ms / 1000) == Some(
            engine::decision_on(v, ctx, sig, now_ms),
        ),
        engine::after_request(v, ctx, sig, now_ms).rate_limited == v.rate_limited.wrapping_add(1),
        engine::after_request(v, ctx, sig, now_ms).rep == v.rep,
{
    lemma_gates(v, ctx, now_ms / 1000);
    let d = engine::decision_on(v, ctx, sig, now_ms);
    assert(d.reasons[0].rule_id == "RL-01"@);
}

/// Every request that meets the rate limit is counted by it, whether its client is cleared or
/// not, and whatever becomes of it; no other is. Only the requests over the rate are counted as
/// limited.
#[verifier::spinoff_prover]
#[verifier::rlimit(40)]
pub proof fn lemma_counted_by_rate(v: EngineView, ctx: RequestCtx, sig: SignalsView, now_ms: u64)
    ensures
        meets_rate_limit(v, ctx, now_ms / 1000) && v.rt.rules.rate_limit ==> engine::after_request(
            v,
            ctx,
            sig,
            now_ms,
        ).rate == ratelimit::after_check(
            v.rate,
            now_ms / 1000,
            ctx.client_ip,
            ctx.path@,
            engine::rate_scale(v.rt),
        ),
        !(meets_rate_limit(v, ctx, now_ms / 1000) && v.rt.rules.rate_limit) ==> engine::after_request(
            v,
            ctx,
            sig,
            now_ms,
        ).rate == v.rate,
        !(meets_rate_limit(v, ctx, now_ms / 1000) && over_rate(v, ctx, now_ms / 1000)) ==> engine::after_request(
            v,
            ctx,
            sig,
            now_ms,
        ).rate_limited == v.rate_limited,
{
    lemma_gates(v, ctx, now_ms / 1000);
}

/// A cleared client within its rate is let through, and nothing but the rate is counted.
#[verifier::spinoff_prover]
#[verifier::rlimit(40)]
pub proof fn lemma_cleared_passes(v: EngineView, ctx: RequestCtx, sig: SignalsView, now_ms: u64)
    requires
        meets_rate_limit(v, ctx, now_ms / 1000),
        !over_rate(v, ctx, now_ms / 1000),
        shows_clearance(v, ctx, now_ms / 1000),
    ensures
        engine::decision_on(v, ctx, sig, now_ms) == DecisionView::allow(ctx.request_id@),
        ({
            let w = engine::after_request(v, ctx, sig, now_ms);
            &&& w.rep == v.rep
            &&& w.behavior == v.behavior
            &&& w.subnets == v.subnets
            &&& w.replay == v.replay
            &&& w.dist == v.dist
        }),
{
    lemma_gates(v, ctx, now_ms / 1000);
}

/// The state in which a request is judged.
pub open spec fn at_judgement(v: EngineView, ctx: RequestCtx, now_s: u64) -> EngineView {
    engine::after_rate(engine::after_bots(v, ctx, now_s), ctx, now_s)
}

#[verifier::spinoff_prover]
#[verifier::rlimit(40)]
proof fn lemma_judged(v: EngineView, ctx: RequestCtx, sig: SignalsView, now_ms: u64)
    requires
        meets_rate_limit(v, ctx, now_ms / 1000),
        !over_rate(v, ctx, now_ms / 1000),
        !shows_clearance(v, ctx, now_ms / 1000),
    ensures
        ({
            let now_s = now_ms / 1000;
            let verdict = engine::bot_verdict(v, ctx, now_s);
            engine::decided(v, ctx, sig, now_ms) == engine::judged(
                at_judgement(v, ctx, now_s),
                ctx,
                engine::spoof_of(verdict),
                verdict is GoodBotPending,
                sig,
                now_ms,
            )
        }),
{
    lemma_gates(v, ctx, now_ms / 1000);
}

proof fn lemma_at_judgement(v: EngineView, ctx: RequestCtx, now_s: u64)
    ensures
        ({
            let w = at_judgement(v, ctx, now_s);
            &&& w.rt == v.rt
            &&& w.rep == v.rep
            &&& w.behavior == v.behavior
            &&& w.subnets == v.subnets
            &&& w.replay == v.replay
            &&& w.dist == v.dist
            &&& engine::lockdown_on(w.rt) <==> in_lockdown(v.rt)
            &&& engine::params_of(engine::effective_level(w.rt)).force_challenge <==> tightness(v.rt) >= 2
            &&& engine::integrity_shown(w, ctx, now_s) <==> shows_integrity(v, ctx, now_s)
        }),
{
}

/// Under lockdown a forged fingerprint is blocked and counts as an offence; a client that nobody
/// vouches for is challenged and keeps its standing.
#[verifier::spinoff_prover]
#[verifier::rlimit(40)]
pub proof fn lemma_lockdown_answers(v: EngineView, ctx: RequestCtx, sig: SignalsView, now_ms: u64)
    requires
        meets_rate_limit(v, ctx, now_ms / 1000),
        !over_rate(v, ctx, now_ms / 1000),
        !shows_clearance(v, ctx, now_ms / 1000),
        in_lockdown(v.rt),
    ensures
        ({
            let d = engine::decision_on(v, ctx, sig, now_ms);
            let w = engine::after_request(v, ctx, sig, now_ms);
            let s = browser_check::verdict_of(ctx);
            &&& s is Forged ==> d.action == Action::Block && d.status == 403 && d.score == 100 && d.reasons.len() == 1
                && d.reasons[0].rule_id == "LOCKDOWN-FORGED"@ && w.rep == reputation::after_offence(
                v.rep,
                now_ms / 1000,
                ctx.client_ip,
            )
            &&& s is Unverified && !shows_integrity(v, ctx, now_ms / 1000) ==> d.action == Action::Challenge
                && d.status == 403 && d.score == 100 && d.reasons.len() == 1 && d.reasons[0].rule_id
                == "LOCKDOWN-UNVERIFIED"@ && d.reasons[0].score == 100 && w.rep == v.rep
        }),
{
    lemma_judged(v, ctx, sig, now_ms);
    lemma_at_judgement(v, ctx, now_ms / 1000);
}

/// Without the lockdown, every client without a clearance is challenged from the second step on.
#[verifier::spinoff_prover]
#[verifier::rlimit(40)]
pub proof fn lemma_challenge_forced(v: EngineView, ctx: RequestCtx, sig: SignalsView, now_ms: u64)
    requires
        meets_rate_limit(v, ctx, now_ms / 1000),
        !over_rate(v, ctx, now_ms / 1000),
        !shows_clearance(v, ctx, now_ms / 1000),
        !in_lockdown(v.rt),
        tightness(v.rt) >= 2,
    ensures
        ({
            let d = engine::decision_on(v, ctx, sig, now_ms);
            &&& d.action == Action::Challenge
            &&& d.status == 403
            &&& d.score == 100
            &&& d.reasons.len() == 1
            &&& d.reasons[0].rule_id == "UAM-FORCE"@
            &&& d.reasons[0].score == 100
            &&& engine::after_request(v, ctx, sig, now_ms).rep == v.rep
        }),
{
    lemma_judged(v, ctx, sig, now_ms);
    lemma_at_judgement(v, ctx, now_ms / 1000);
}

// ---------------------------------------------------------------------------
// The scoring
// ---------------------------------------------------------------------------

pub open spec fn points(c: bool, n: nat) -> nat {
    if c {
        n
    } else {
        0
    }
}

/// What the reasons of a list add where they are wanted.
pub open spec fn sum_when(c: bool, list: Seq<ReasonView>) -> nat {
    if c {
        decision::total(list)
    } else {
        0
    }
}

/// Whether the country of a request is blocked.
pub open spec fn from_blocked(v: EngineView, ctx: RequestCtx) -> bool {
    ctx.country is Some && (text::any_fold(v.rt.blocked_countries, text::upper_text(ctx.country->0@))
        || text::any_fold(v.cfg.geoip.block_countries.deep_view(), text::upper_text(ctx.country->0@)))
}

pub open spec fn from_suspicious(v: EngineView, ctx: RequestCtx) -> bool {
    ctx.country is Some && text::any_fold(
        v.cfg.geoip.suspicious_countries.deep_view(),
        text::upper_text(ctx.country->0@),
    )
}

/// Whether a request announces a length and chunks at once.
pub open spec fn two_lengths(ctx: RequestCtx) -> bool {
    let te = request::lookup(ctx.headers@, "transfer-encoding"@);
    request::has_key(ctx.headers@, "content-length"@) && te is Some && text::has_text(
        text::lower_text(te->0),
        "chunked"@,
    )
}

/// Whether a request shows the marks of a browser.
pub open spec fn like_browser(ctx: RequestCtx) -> bool {
    request::has_key_prefix(ctx.headers@, "sec-fetch-"@) && request::has_key(ctx.headers@, "accept-language"@)
}

/// What a request scores by itself.
pub open spec fn own_points(v: EngineView, ctx: RequestCtx, sig: SignalsView) -> nat {
    let s = rules::surface_of(ctx);
    let r = v.rt.rules;
    points(from_blocked(v, ctx), 100) + points(!from_blocked(v, ctx) && from_suspicious(v, ctx), 15) + points(
        ctx.host@.len() == 0,
        100,
    ) + points(ctx.user_agent@.len() == 0, 10) + points(ctx.headers@.len() < 3, 20) + points(two_lengths(ctx), 25)
        + sum_when(v.rt.defenses.ddos, ddos::anomalies(ctx)) + points(
        v.rt.datacenter_block && sig.from_datacenter,
        25,
    ) + points(r.bot_ua && ctx.user_agent@.len() > 0 && ua::some_word_occurs(v.words, ctx.user_agent@), 60) + points(
        r.sqli && rules::sqli::scan_of(v.patterns.sqli, s) is Some,
        80,
    ) + points(r.xss && rules::xss::scan_of(v.patterns.xss, s) is Some, 80) + points(
        r.traversal && rules::traversal::scan_of(v.patterns.traversal, s) is Some,
        70,
    ) + points(r.cmdi && rules::cmdi::scan_of(v.patterns.cmdi, s) is Some, 80) + points(
        r.lfi && rules::lfi::scan_of(v.patterns.lfi, s) is Some,
        70,
    )
}

/// What a request scores by its client and by what went before.
pub open spec fn traffic_points(
    v: EngineView,
    ctx: RequestCtx,
    spoof: Option<ReasonView>,
    pending: bool,
    sig: SignalsView,
    now_ms: u64,
) -> nat {
    let now_s = now_ms / 1000;
    sum_when(spoof is Some, seq![spoof->0]) + sum_when(
        v.rt.defenses.bot_score && !pending && !shows_integrity(v, ctx, now_s),
        sig.bot_reasons,
    ) + sum_when(
        v.rt.defenses.behavior,
        behavior::reasons_for(
            v.behavior,
            now_ms,
            ctx.client_ip,
            ctx.path@,
            ctx.method@,
            ctx.user_agent@,
            like_browser(ctx),
        ),
    ) + sum_when(
        v.rt.defenses.subnet,
        subnet::reasons_for(v.subnets, now_s, ctx.client_ip, v.rt.subnet_rpm, v.rt.subnet_conn as i64),
    ) + sum_when(
        v.rt.defenses.replay && !like_browser(ctx),
        decision::listed(
            signature::replay_reason(v.replay, now_s, ctx.client_ip, engine::replay_hash(ctx)),
        ),
    ) + sum_when(
        v.rt.defenses.dist_ua && !like_browser(ctx) && ctx.user_agent@.len() > 0,
        decision::listed(signature::dist_reason(v.dist, now_s, ctx.client_ip, ctx.user_agent@)),
    )
}

proof fn lemma_none()
    ensures
        decision::total(seq![]) == 0,
{
}

proof fn lemma_one(r: ReasonView)
    ensures
        decision::total(seq![r]) == r.score,
{
    broadcast use decision::group_reasons;

    assert(decision::when(true, r) == seq![r]);
}

#[verifier::spinoff_prover]
#[verifier::rlimit(40)]
proof fn lemma_own_sums(v: EngineView, ctx: RequestCtx, sig: SignalsView)
    ensures
        decision::total(decision::listed(engine::geo_reason(v, ctx))) == points(from_blocked(v, ctx), 100) + points(
            !from_blocked(v, ctx) && from_suspicious(v, ctx),
            15,
        ),
        decision::total(engine::header_reasons_of(ctx)) == points(ctx.host@.len() == 0, 100) + points(
            ctx.user_agent@.len() == 0,
            10,
        ) + points(ctx.headers@.len() < 3, 20) + points(two_lengths(ctx), 25),
        decision::total(engine::ddos_reasons(v, ctx)) == sum_when(v.rt.defenses.ddos, ddos::anomalies(ctx)),
        decision::total(engine::datacenter_reason(v, sig)) == points(
            v.rt.datacenter_block && sig.from_datacenter,
            25,
        ),
        decision::total(engine::ua_reason(v, ctx)) == points(
            v.rt.rules.bot_ua && ctx.user_agent@.len() > 0 && ua::some_word_occurs(v.words, ctx.user_agent@),
            60,
        ),
{
    broadcast use decision::group_reasons;

    lemma_none();
    if engine::geo_reason(v, ctx) is Some {
        lemma_one(engine::geo_reason(v, ctx)->0);
    }
}

proof fn lemma_scan_sum(on: bool, h: Option<rules::HitView>, score: u32)
    ensures
        decision::total(engine::scan_reason(on, h, score)) == points(on && h is Some, score as nat),
{
    broadcast use decision::group_reasons;

    lemma_none();
}

#[verifier::spinoff_prover]
#[verifier::rlimit(40)]
proof fn lemma_rule_sums(v: EngineView, ctx: RequestCtx)
    ensures
        ({
            let s = rules::surface_of(ctx);
            let r = v.rt.rules;
            decision::total(engine::rule_reasons(v, ctx)) == points(
                r.sqli && rules::sqli::scan_of(v.patterns.sqli, s) is Some,
                80,
            ) + points(r.xss && rules::xss::scan_of(v.patterns.xss, s) is Some, 80) + points(
                r.traversal && rules::traversal::scan_of(v.patterns.traversal, s) is Some,
                70,
            ) + points(r.cmdi && rules::cmdi::scan_of(v.patterns.cmdi, s) is Some, 80) + points(
                r.lfi && rules::lfi::scan_of(v.patterns.lfi, s) is Some,
                70,
            )
        }),
{
    broadcast use decision::group_reasons;

    let s = rules::surface_of(ctx);
    let r = v.rt.rules;
    lemma_scan_sum(r.sqli, rules::sqli::scan_of(v.patterns.sqli, s), 80);
    lemma_scan_sum(r.xss, rules::xss::scan_of(v.patterns.xss, s), 80);
    lemma_scan_sum(r.traversal, rules::traversal::scan_of(v.patterns.traversal, s), 70);
    lemma_scan_sum(r.cmdi, rules::cmdi::scan_of(v.patterns.cmdi, s), 80);
    lemma_scan_sum(r.lfi, rules::lfi::scan_of(v.patterns.lfi, s), 70);
}

#[verifier::spinoff_prover]
#[verifier::rlimit(40)]
proof fn lemma_own_points(v: EngineView, ctx: RequestCtx, sig: SignalsView)
    ensures
        own_points(v, ctx, sig) == decision::total(decision::listed(engine::geo_reason(v, ctx))) + decision::total(
            engine::header_reasons_of(ctx),
        ) + decision::total(engine::ddos_reasons(v, ctx)) + decision::total(engine::datacenter_reason(v, sig))
            + decision::total(engine::ua_reason(v, ctx)) + decision::total(engine::rule_reasons(v, ctx)),
{
    lemma_own_sums(v, ctx, sig);
    lemma_rule_sums(v, ctx);
}

#[verifier::spinoff_prover]
#[verifier::rlimit(40)]
proof fn lemma_traffic_sums(
    v: EngineView,
    ctx: RequestCtx,
    spoof: Option<ReasonView>,
    pending: bool,
    sig: SignalsView,
    now_ms: u64,
)
    ensures
        decision::total(decision::listed(spoof)) + decision::total(
            engine::bot_reasons(v, ctx, pending, sig, now_ms / 1000),
        ) + decision::total(engine::behavior_reasons(v, ctx, now_ms)) + decision::total(
            engine::subnet_reasons(v, ctx, now_ms / 1000),
        ) + decision::total(engine::replay_reasons(v, ctx, now_ms / 1000)) + decision::total(
            engine::dist_reasons(v, ctx, now_ms / 1000),
        ) == traffic_points(v, ctx, spoof, pending, sig, now_ms),
{
    lemma_none();
    lemma_at_judgement(v, ctx, now_ms / 1000);
    assert(engine::integrity_shown(v, ctx, now_ms / 1000) <==> shows_integrity(v, ctx, now_ms / 1000));
    assert(engine::browserish(ctx) == like_browser(ctx));
}

proof fn lemma_four(a: Seq<ReasonView>, b: Seq<ReasonView>, c: Seq<ReasonView>, d: Seq<ReasonView>)
    ensures
        decision::total(a + b + c + d) == decision::total(a) + decision::total(b) + decision::total(c)
            + decision::total(d),
{
    decision::lemma_total_add(a, b);
    decision::lemma_total_add(a + b, c);
    decision::lemma_total_add(a + b + c, d);
}

proof fn lemma_six(
    a: Seq<ReasonView>,
    b: Seq<ReasonView>,
    c: Seq<ReasonView>,
    d: Seq<ReasonView>,
    e: Seq<ReasonView>,
    f: Seq<ReasonView>,
)
    ensures
        decision::total(a + b + c + d + e + f) == decision::total(a) + decision::total(b) + decision::total(c)
            + decision::total(d) + decision::total(e) + decision::total(f),
{
    lemma_four(a, b, c, d);
    decision::lemma_total_add(a + b + c + d, e);
    decision::lemma_total_add(a + b + c + d + e, f);
}

#[verifier::spinoff_prover]
#[verifier::rlimit(40)]
proof fn lemma_parts(
    v: EngineView,
    ctx: RequestCtx,
    spoof: Option<ReasonView>,
    pending: bool,
    sig: SignalsView,
    now_ms: u64,
)
    ensures
        ({
            let now_s = now_ms / 1000;
            decision::total(engine::all_reasons(v, ctx, spoof, pending, sig, now_ms)) == decision::total(
                decision::listed(spoof),
            ) + decision::total(decision::listed(engine::geo_reason(v, ctx))) + decision::total(
                engine::header_reasons_of(ctx),
            ) + decision::total(engine::bot_reasons(v, ctx, pending, sig, now_s)) + decision::total(
                engine::behavior_reasons(v, ctx, now_ms),
            ) + decision::total(engine::ddos_reasons(v, ctx)) + decision::total(engine::datacenter_reason(v, sig))
                + decision::total(engine::subnet_reasons(v, ctx, now_s)) + decision::total(
                engine::replay_reasons(v, ctx, now_s),
            ) + decision::total(engine::dist_reasons(v, ctx, now_s)) + decision::total(engine::ua_reason(v, ctx))
                + decision::total(engine::rule_reasons(v, ctx))
        }),
{
    let now_s = now_ms / 1000;
    let a = engine::client_reasons(v, ctx, spoof, pending, sig, now_s);
    let b = engine::traffic_reasons(v, ctx, sig, now_ms);
    let k = engine::ua_reason(v, ctx);
    let l = engine::rule_reasons(v, ctx);
    decision::lemma_total_add(k, l);
    decision::lemma_total_add(a, b);
    decision::lemma_total_add(a + b, k + l);
    lemma_four(
        decision::listed(spoof),
        decision::listed(engine::geo_reason(v, ctx)),
        engine::header_reasons_of(ctx),
        engine::bot_reasons(v, ctx, pending, sig, now_s),
    );
    lemma_six(
        engine::behavior_reasons(v, ctx, now_ms),
        engine::ddos_reasons(v, ctx),
        engine::datacenter_reason(v, sig),
        engine::subnet_reasons(v, ctx, now_s),
        engine::replay_reasons(v, ctx, now_s),
        engine::dist_reasons(v, ctx, now_s),
    );
}

/// The score is the sum of what each check adds, each with its fixed weight and only where it is
/// switched on.
#[verifier::spinoff_prover]
#[verifier::rlimit(40)]
pub proof fn lemma_points_add_up(
    v: EngineView,
    ctx: RequestCtx,
    spoof: Option<ReasonView>,
    pending: bool,
    sig: SignalsView,
    now_ms: u64,
)
    ensures
        decision::total(engine::all_reasons(v, ctx, spoof, pending, sig, now_ms)) == own_points(v, ctx, sig)
            + traffic_points(v, ctx, spoof, pending, sig, now_ms),
{
    lemma_own_points(v, ctx, sig);
    lemma_traffic_sums(v, ctx, spoof, pending, sig, now_ms);
    lemma_parts(v, ctx, spoof, pending, sig, now_ms);
}

/// What is known of the bot that the client claims to be, where that is looked at.
pub open spec fn claim(v: EngineView, ctx: RequestCtx, now_s: u64) -> goodbot::VerdictView {
    goodbot::verdict_for(v.bots, now_s, ctx.client_ip, ctx.user_agent@)
}

/// What a request scores in all.
pub open spec fn score_points(v: EngineView, ctx: RequestCtx, sig: SignalsView, now_ms: u64) -> nat {
    let now_s = now_ms / 1000;
    let known = v.rt.defenses.goodbot;
    let spoofed = known && claim(v, ctx, now_s) is GoodBotSpoofed;
    let pending = known && claim(v, ctx, now_s) is GoodBotPending;
    own_points(v, ctx, sig) + points(spoofed, 60) + traffic_points(v, ctx, None, pending, sig, now_ms)
}

/// A request that is scored is answered by the thresholds alone, on the sum of everything that
/// speaks against it; the offence is counted exactly when the block threshold is reached.
#[verifier::spinoff_prover]
#[verifier::rlimit(40)]
pub proof fn lemma_scored(v: EngineView, ctx: RequestCtx, sig: SignalsView, now_ms: u64)
    requires
        is_scored(v, ctx, now_ms / 1000),
    ensures
        ({
            let d = engine::decision_on(v, ctx, sig, now_ms);
            let n = score_points(v, ctx, sig, now_ms);
            let score = if n <= u32::MAX {
                n as int
            } else {
                u32::MAX as int
            };
            let block_at = lowered(v.rt.block_threshold, tightness(v.rt));
            let challenge_at = lowered(v.rt.challenge_threshold, tightness(v.rt));
            let held = v.rt.tarpit_score > 0 && score >= v.rt.tarpit_score;
            let w = engine::after_request(v, ctx, sig, now_ms);
            &&& d.action == Action::Allow <==> score < challenge_at && score < block_at
            &&& d.action == Action::Challenge <==> challenge_at <= score < block_at
            &&& d.action == Action::Block <==> score >= block_at && !held
            &&& d.action == Action::Tarpit <==> score >= block_at && held
            &&& d.action == Action::Challenge || d.action == Action::Tarpit ==> d.score == score
            &&& d.request_id == ctx.request_id@
            &&& score >= block_at ==> w.rep == reputation::after_offence(v.rep, now_ms / 1000, ctx.client_ip)
            &&& score < block_at ==> w.rep == v.rep
        }),
{
    let now_s = now_ms / 1000;
    let verdict = engine::bot_verdict(v, ctx, now_s);
    let w = at_judgement(v, ctx, now_s);
    lemma_judged(v, ctx, sig, now_ms);
    lemma_at_judgement(v, ctx, now_s);
    lemma_sum_scored(v, ctx, sig, now_ms);
    let reasons = engine::all_reasons(
        w,
        ctx,
        engine::spoof_of(verdict),
        verdict is GoodBotPending,
        sig,
        now_ms,
    );
    lemma_settled(v.rt, engine::scored(ctx.request_id@, reasons));
}

#[verifier::spinoff_prover]
#[verifier::rlimit(40)]
proof fn lemma_sum_scored(v: EngineView, ctx: RequestCtx, sig: SignalsView, now_ms: u64)
    ensures
        ({
            let now_s = now_ms / 1000;
            let verdict = engine::bot_verdict(v, ctx, now_s);
            let reasons = engine::all_reasons(
                at_judgement(v, ctx, now_s),
                ctx,
                engine::spoof_of(verdict),
                verdict is GoodBotPending,
                sig,
                now_ms,
            );
            let d = engine::scored(ctx.request_id@, reasons);
            let n = score_points(v, ctx, sig, now_ms);
            &&& d.score == if n <= u32::MAX {
                n as int
            } else {
                u32::MAX as int
            }
            &&& d.request_id == ctx.request_id@
        }),
{
    let now_s = now_ms / 1000;
    let verdict = engine::bot_verdict(v, ctx, now_s);
    let spoof = engine::spoof_of(verdict);
    let pending = verdict is GoodBotPending;
    let w = at_judgement(v, ctx, now_s);
    let reasons = engine::all_reasons(w, ctx, spoof, pending, sig, now_ms);
    lemma_scored_sum(ctx.request_id@, reasons);
    lemma_points_add_up(w, ctx, spoof, pending, sig, now_ms);
    if spoof is Some {
        lemma_one(spoof->0);
    }
    lemma_same_points(v, ctx, spoof, pending, sig, now_ms);
}

proof fn lemma_scored_sum(id: Seq<char>, reasons: Seq<ReasonView>)
    ensures
        engine::scored(id, reasons).score == if decision::total(reasons) <= u32::MAX {
            decision::total(reasons)
        } else {
            u32::MAX as nat
        },
        engine::scored(id, reasons).reasons == reasons,
        engine::scored(id, reasons).request_id == id,
{
    decision::lemma_with_reasons(DecisionView::allow(id), reasons);
    assert(DecisionView::allow(id).reasons + reasons =~= reasons);
    decision::lemma_capped_total(reasons);
}

proof fn lemma_same_points(
    v: EngineView,
    ctx: RequestCtx,
    spoof: Option<ReasonView>,
    pending: bool,
    sig: SignalsView,
    now_ms: u64,
)
    ensures
        ({
            let w = at_judgement(v, ctx, now_ms / 1000);
            &&& own_points(w, ctx, sig) == own_points(v, ctx, sig)
            &&& traffic_points(w, ctx, spoof, pending, sig, now_ms) == traffic_points(
                v,
                ctx,
                None,
                pending,
                sig,
                now_ms,
            ) + sum_when(spoof is Some, seq![spoof->0])
        }),
{
}

/// What remembers the traffic notes exactly the requests that are scored, each tracker where it is
/// switched on; runs of equal requests and shared User-Agents are not looked for among browsers.
#[verifier::spinoff_prover]
#[verifier::rlimit(40)]
pub proof fn lemma_scored_noted(v: EngineView, ctx: RequestCtx, sig: SignalsView, now_ms: u64)
    ensures
        ({
            let now_s = now_ms / 1000;
            let scored = is_scored(v, ctx, now_s);
            let w = engine::after_request(v, ctx, sig, now_ms);
            &&& w.behavior == if scored && v.rt.defenses.behavior {
                behavior::observed(v.behavior, now_ms, ctx.client_ip, ctx.path@, ctx.method@, ctx.user_agent@)
            } else {
                v.behavior
            }
            &&& w.subnets == if scored && v.rt.defenses.subnet {
                subnet::observed(v.subnets, now_s, ctx.client_ip)
            } else {
                v.subnets
            }
            &&& w.replay == if scored && v.rt.defenses.replay && !like_browser(ctx) {
                signature::replay_observed(v.replay, now_s, ctx.client_ip, engine::replay_hash(ctx))
            } else {
                v.replay
            }
            &&& w.dist == if scored && v.rt.defenses.dist_ua && !like_browser(ctx) && ctx.user_agent@.len() > 0 {
                signature::dist_observed(v.dist, now_s, ctx.client_ip, ctx.user_agent@)
            } else {
                v.dist
            }
        }),
{
    let now_s = now_ms / 1000;
    lemma_gates(v, ctx, now_s);
    lemma_at_judgement(v, ctx, now_s);
    if meets_rate_limit(v, ctx, now_s) && !over_rate(v, ctx, now_s) && !shows_clearance(v, ctx, now_s) {
        lemma_judged(v, ctx, sig, now_ms);
    }
}

/// A request is let through exactly when its client is on an allow list, or is on no list and is a
/// confirmed bot, or is cleared and within the limits, or when the request is scored below both
/// thresholds.
#[verifier::spinoff_prover]
#[verifier::rlimit(40)]
pub proof fn lemma_allowed_exactly(v: EngineView, ctx: RequestCtx, sig: SignalsView, now_ms: u64)
    ensures
        ({
            let now_s = now_ms / 1000;
            let n = score_points(v, ctx, sig, now_ms);
            engine::decision_on(v, ctx, sig, now_ms).action == Action::Allow <==> {
                ||| net::any_covers(v.rt.allow, ctx.client_ip) || net::any_covers(v.rep.allow, ctx.client_ip)
                ||| on_no_list(v, ctx, now_s) && confirmed_bot(v, ctx, now_s)
                ||| meets_rate_limit(v, ctx, now_s) && !over_rate(v, ctx, now_s) && shows_clearance(v, ctx, now_s)
                ||| is_scored(v, ctx, now_s) && n < lowered(v.rt.challenge_threshold, tightness(v.rt)) && n < lowered(
                    v.rt.block_threshold,
                    tightness(v.rt),
                )
            }
        }),
{
    let now_s = now_ms / 1000;
    lemma_gates(v, ctx, now_s);
    lemma_at_judgement(v, ctx, now_s);
    if is_scored(v, ctx, now_s) {
        lemma_scored(v, ctx, sig, now_ms);
    } else if meets_rate_limit(v, ctx, now_s) && !over_rate(v, ctx, now_s) && !shows_clearance(v, ctx, now_s) {
        lemma_judged(v, ctx, sig, now_ms);
    }
}

/// A request that an attack pattern matches, whose rule is on, is not let through by the scoring
/// with a block threshold of at most eighty points.
pub proof fn lemma_attack_stopped(v: EngineView, ctx: RequestCtx, sig: SignalsView, now_ms: u64)
    requires
        is_scored(v, ctx, now_ms / 1000),
        ({
            let s = rules::surface_of(ctx);
            ||| v.rt.rules.sqli && rules::sqli::scan_of(v.patterns.sqli, s) is Some
            ||| v.rt.rules.xss && rules::xss::scan_of(v.patterns.xss, s) is Some
            ||| v.rt.rules.cmdi && rules::cmdi::scan_of(v.patterns.cmdi, s) is Some
        }),
        v.rt.block_threshold <= 80,
    ensures
        engine::decision_on(v, ctx, sig, now_ms).action == Action::Block || engine::decision_on(
            v,
            ctx,
            sig,
            now_ms,
        ).action == Action::Tarpit,
{
    lemma_scored(v, ctx, sig, now_ms);
}

// ---------------------------------------------------------------------------
// Laws
// ---------------------------------------------------------------------------

/// Two requests are the same to the run of equal ones exactly by method, path and User-Agent.
pub proof fn lemma_replay_key(ctx: RequestCtx)
    ensures
        engine::replay_hash(ctx) == crate::hash::fnv_from(
            0xcbf29ce484222325,
            vstd::utf8::encode_utf8(ctx.method@) + vstd::utf8::encode_utf8(ctx.path@) + vstd::utf8::encode_utf8(
                ctx.user_agent@,
            ),
        ),
{
    crate::hash::lemma_hash_of_three(ctx.method@, ctx.path@, ctx.user_agent@);
}

/// An engine that was just built knows the lists, the limits and the secret of its configuration, and
/// nothing of any client.
pub proof fn lemma_fresh_engine(cfg: crate::config::Config, token: Seq<char>, ip: crate::net::IpAddr, now_s: u64)
    ensures
        ({
            let v = engine::fresh_engine(cfg, token);
            &&& v.rep.threshold == cfg.reputation.auto_ban_threshold_hits
            &&& v.rep.window == cfg.reputation.auto_ban_window_secs
            &&& v.rep.duration == cfg.reputation.auto_ban_duration_secs
            &&& !reputation::banned_in(v.rep.state, ip.spec_key(), now_s)
            &&& v.cookie == cfg.challenge.cookie_name@
            &&& v.ttl == cfg.challenge.cookie_ttl_secs
            &&& v.secret == vstd::utf8::encode_utf8(cfg.challenge.hmac_secret@)
            &&& v.bic_secret == v.secret
            &&& 1 <= cfg.challenge.pow_difficulty <= 8 ==> v.difficulty == cfg.challenge.pow_difficulty
            &&& v.words == cfg.detection.suspicious_user_agents.deep_view()
            &&& v.patterns.sqli == rules::sqli::pattern_list()
            &&& v.patterns.xss == rules::xss::pattern_list()
            &&& v.patterns.traversal == rules::traversal::pattern_list()
            &&& v.patterns.cmdi == rules::cmdi::pattern_list()
            &&& v.patterns.lfi == rules::lfi::pattern_list()
            &&& tightness(v.rt) == 0
            &&& !in_lockdown(v.rt)
            &&& v.log.cap == 500
            &&& v.log.events.len() == 0
            &&& v.rate_limited == 0
            &&& v.traps.len() == 54
        }),
{
}

/// The traps of the settings take the place of the old ones exactly where the settings hold some, and
/// the stored form holds the traps and the secret of the captcha service that the shown one leaves out.
pub proof fn lemma_stored_and_shown(v: EngineView, p: crate::runtime::PersistedView)
    ensures
        p.honeypot_paths is None ==> engine::reloaded(v, p).traps == v.traps,
        p.honeypot_paths is Some ==> engine::reloaded(v, p).traps == p.honeypot_paths->0,
        engine::reloaded(v, p).rep == v.rep,
        engine::reloaded(v, p).log == v.log,
        engine::shown_form(v).honeypot_paths == Some(v.traps),
        engine::shown_form(v).turnstile_secret is None,
        engine::stored_form(v).honeypot_paths == Some(v.traps),
        engine::stored_form(v).turnstile_secret == Some(v.rt.turnstile_secret),
        engine::reloaded(v, engine::stored_form(v)).traps == v.traps,
        engine::reloaded(v, engine::stored_form(v)).rt.turnstile_secret == v.rt.turnstile_secret,
{
}

/// The claim to be a known bot is looked at, and noted where it is open, for every client on no list,
/// whatever becomes of the request.
#[verifier::spinoff_prover]
#[verifier::rlimit(40)]
pub proof fn lemma_claims_noted(v: EngineView, ctx: RequestCtx, sig: SignalsView, now_ms: u64)
    ensures
        engine::after_request(v, ctx, sig, now_ms).bots == if on_no_list(v, ctx, now_ms / 1000)
            && v.rt.defenses.goodbot {
            goodbot::after_claim(v.bots, now_ms / 1000, ctx.client_ip, ctx.user_agent@)
        } else {
            v.bots
        },
{
    lemma_gates(v, ctx, now_ms / 1000);
}

/// A confirmed bot on no list is let through, and nothing of it is counted.
#[verifier::spinoff_prover]
#[verifier::rlimit(40)]
pub proof fn lemma_bot_passes(v: EngineView, ctx: RequestCtx, sig: SignalsView, now_ms: u64)
    requires
        on_no_list(v, ctx, now_ms / 1000),
        confirmed_bot(v, ctx, now_ms / 1000),
    ensures
        engine::decision_on(v, ctx, sig, now_ms) == DecisionView::allow(ctx.request_id@),
        engine::after_request(v, ctx, sig, now_ms).rate == v.rate,
        engine::after_request(v, ctx, sig, now_ms).rep == v.rep,
        engine::after_request(v, ctx, sig, now_ms).behavior == v.behavior,
{
    lemma_gates(v, ctx, now_ms / 1000);
}

/// A client on a deny list or under a ban, and on no allow list, is blocked with the full score, and
/// nothing of it is counted.
pub proof fn lemma_denied_exactly(v: EngineView, ctx: RequestCtx, sig: SignalsView, now_ms: u64)
    requires
        !on_no_list(v, ctx, now_ms / 1000),
    ensures
        ({
            let d = engine::decision_on(v, ctx, sig, now_ms);
            let allowed = net::any_covers(v.rt.allow, ctx.client_ip) || net::any_covers(v.rep.allow, ctx.client_ip);
            let w = engine::after_request(v, ctx, sig, now_ms);
            &&& allowed ==> d == DecisionView::allow(ctx.request_id@)
            &&& !allowed ==> d.action == Action::Block && d.status == 403 && d.score == 100 && d.reasons.len() == 1
            &&& w.rate == v.rate
            &&& w.rep == v.rep
            &&& w.behavior == v.behavior
            &&& w.bots == v.bots
        }),
{
}

/// Every decision is written down once: in the log with 96 characters of the User-Agent, and for the
/// store, where there is one, with 192.
#[verifier::spinoff_prover]
#[verifier::rlimit(40)]
pub proof fn lemma_written_down(v: EngineView, ctx: RequestCtx, sig: SignalsView, now_ms: u64)
    ensures
        ({
            let d = engine::decision_on(v, ctx, sig, now_ms);
            let w = engine::after_request(v, ctx, sig, now_ms);
            &&& w.log == crate::events::logged(v.log, crate::events::event_of(ctx, d, now_ms, 96))
            &&& v.sink is None ==> w.sink is None
            &&& v.sink is Some ==> w.sink == Some(
                crate::storage::submitted(v.sink->0, crate::events::event_of(ctx, d, now_ms, 192)),
            )
            &&& w.rt == v.rt
            &&& w.cfg == v.cfg
            &&& w.conns == v.conns
            &&& w.traps == v.traps
        }),
{
    engine::lemma_frame(v, ctx, sig, now_ms);
}

proof fn lemma_front(a: Seq<ReasonView>, b: Seq<ReasonView>)
    ensures
        a.len() > 0 ==> (a + b).len() > 0 && (a + b)[0] == a[0],
        a.len() == 0 ==> a + b == b,
{
    if a.len() == 0 {
        assert(a + b =~= b);
    }
}

#[verifier::spinoff_prover]
#[verifier::rlimit(40)]
proof fn lemma_client_front(
    v: EngineView,
    ctx: RequestCtx,
    spoof: Option<ReasonView>,
    pending: bool,
    sig: SignalsView,
    now_s: u64,
)
    ensures
        ({
            let client = engine::client_reasons(v, ctx, spoof, pending, sig, now_s);
            &&& spoof is Some ==> client.len() > 0 && client[0] == spoof->0
            &&& spoof is None && from_blocked(v, ctx) ==> client.len() > 0 && client[0].rule_id == "GEO-BLOCKED"@
            &&& spoof is None && !from_blocked(v, ctx) && !from_suspicious(v, ctx) && ctx.host@.len() == 0
                ==> client.len() > 0 && client[0].rule_id == "HDR-NO-HOST"@
        }),
{
    let a = decision::listed(spoof);
    let b = decision::listed(engine::geo_reason(v, ctx));
    let c = engine::header_reasons_of(ctx);
    let d = engine::bot_reasons(v, ctx, pending, sig, now_s);
    lemma_front(a, b);
    lemma_front(a + b, c);
    lemma_front(a + b + c, d);
}

/// The reasons stand in a fixed order, so that what is reported of a block is the first of them: the
/// refuted claim of a bot, then the country, then the headers, and an attack only where nothing else
/// speaks against the request.
#[verifier::spinoff_prover]
#[verifier::rlimit(40)]
pub proof fn lemma_first_reason(
    v: EngineView,
    ctx: RequestCtx,
    spoof: Option<ReasonView>,
    pending: bool,
    sig: SignalsView,
    now_ms: u64,
)
    ensures
        ({
            let all = engine::all_reasons(v, ctx, spoof, pending, sig, now_ms);
            let client = engine::client_reasons(v, ctx, spoof, pending, sig, now_ms / 1000);
            let traffic = engine::traffic_reasons(v, ctx, sig, now_ms);
            let agent = engine::ua_reason(v, ctx);
            let attack = engine::rule_reasons(v, ctx);
            &&& spoof is Some ==> all.len() > 0 && all[0] == spoof->0
            &&& spoof is None && from_blocked(v, ctx) ==> all.len() > 0 && all[0].rule_id == "GEO-BLOCKED"@
            &&& spoof is None && !from_blocked(v, ctx) && !from_suspicious(v, ctx) && ctx.host@.len() == 0
                ==> all.len() > 0 && all[0].rule_id == "HDR-NO-HOST"@
            &&& client.len() == 0 && traffic.len() > 0 ==> all[0] == traffic[0]
            &&& client.len() == 0 && traffic.len() == 0 && agent.len() > 0 ==> all[0] == agent[0]
            &&& client.len() == 0 && traffic.len() == 0 && agent.len() == 0 && attack.len() > 0 ==> all[0] == attack[0]
        }),
{
    let client = engine::client_reasons(v, ctx, spoof, pending, sig, now_ms / 1000);
    let traffic = engine::traffic_reasons(v, ctx, sig, now_ms);
    let agent = engine::ua_reason(v, ctx);
    let attack = engine::rule_reasons(v, ctx);
    lemma_client_front(v, ctx, spoof, pending, sig, now_ms / 1000);
    lemma_front(client, traffic);
    lemma_front(client + traffic, agent + attack);
    lemma_front(agent, attack);
}

proof fn lemma_header_ids()
    ensures
        "HDR-NO-HOST"@ != "HDR-NO-UA"@,
        "HDR-NO-HOST"@ != "HDR-MINIMAL"@,
        "HDR-NO-HOST"@ != "HDR-CL-TE"@,
        "HDR-NO-UA"@ != "HDR-MINIMAL"@,
        "HDR-NO-UA"@ != "HDR-CL-TE"@,
        "HDR-MINIMAL"@ != "HDR-CL-TE"@,
{
    reveal_strlit("HDR-NO-HOST");
    reveal_strlit("HDR-NO-UA");
    reveal_strlit("HDR-MINIMAL");
    reveal_strlit("HDR-CL-TE");
    assert("HDR-NO-HOST"@.len() == 11);
    assert("HDR-NO-UA"@.len() == 9);
    assert("HDR-MINIMAL"@.len() == 11);
    assert("HDR-CL-TE"@.len() == 9);
    assert("HDR-NO-HOST"@[4] == 'N' && "HDR-MINIMAL"@[4] == 'M');
    assert("HDR-NO-UA"@[4] == 'N' && "HDR-CL-TE"@[4] == 'C');
}

proof fn lemma_rule_ids()
    ensures
        "SQLI-01"@ != "XSS-01"@,
        "SQLI-01"@ != "TRAV-01"@,
        "SQLI-01"@ != "CMDI-01"@,
        "SQLI-01"@ != "LFI-01"@,
        "XSS-01"@ != "TRAV-01"@,
        "XSS-01"@ != "CMDI-01"@,
        "XSS-01"@ != "LFI-01"@,
        "TRAV-01"@ != "CMDI-01"@,
        "TRAV-01"@ != "LFI-01"@,
        "CMDI-01"@ != "LFI-01"@,
{
    reveal_strlit("SQLI-01");
    reveal_strlit("XSS-01");
    reveal_strlit("TRAV-01");
    reveal_strlit("CMDI-01");
    reveal_strlit("LFI-01");
    assert("SQLI-01"@.len() == 7);
    assert("XSS-01"@.len() == 6);
    assert("TRAV-01"@.len() == 7);
    assert("CMDI-01"@.len() == 7);
    assert("LFI-01"@.len() == 6);
    assert("SQLI-01"@[0] == 'S' && "TRAV-01"@[0] == 'T');
    assert("SQLI-01"@[0] == 'S' && "CMDI-01"@[0] == 'C');
    assert("XSS-01"@[0] == 'X' && "LFI-01"@[0] == 'L');
    assert("TRAV-01"@[0] == 'T' && "CMDI-01"@[0] == 'C');
}

/// The headers speak against a request exactly where the host or the User-Agent is missing, where there
/// are fewer than three of them, and where they announce a length and chunks at once.
#[verifier::spinoff_prover]
#[verifier::rlimit(40)]
pub proof fn lemma_headers_flagged(ctx: RequestCtx)
    ensures
        ({
            let l = engine::header_reasons_of(ctx);
            &&& decision::names(l, "HDR-NO-HOST"@) <==> ctx.host@.len() == 0
            &&& decision::gives(l, "HDR-NO-HOST"@, 100) <==> ctx.host@.len() == 0
            &&& decision::names(l, "HDR-NO-UA"@) <==> ctx.user_agent@.len() == 0
            &&& decision::gives(l, "HDR-NO-UA"@, 10) <==> ctx.user_agent@.len() == 0
            &&& decision::names(l, "HDR-MINIMAL"@) <==> ctx.headers@.len() < 3
            &&& decision::gives(l, "HDR-MINIMAL"@, 20) <==> ctx.headers@.len() < 3
            &&& decision::names(l, "HDR-CL-TE"@) <==> two_lengths(ctx)
            &&& decision::gives(l, "HDR-CL-TE"@, 25) <==> two_lengths(ctx)
        }),
{
    broadcast use decision::group_reasons;

    lemma_header_ids();
}

proof fn lemma_scan_named(on: bool, h: Option<rules::HitView>, score: u32, rule_id: Seq<char>)
    ensures
        decision::names(engine::scan_reason(on, h, score), rule_id) <==> on && h is Some && h->0.rule_id == rule_id,
        decision::gives(engine::scan_reason(on, h, score), rule_id, score) <==> on && h is Some && h->0.rule_id
            == rule_id,
{
    broadcast use decision::group_reasons;

    let none: Seq<ReasonView> = seq![];
    assert(!decision::names(none, rule_id) && !decision::gives(none, rule_id, score));
}

/// Each rule speaks against a request under its own name exactly where it is on and its patterns match.
#[verifier::spinoff_prover]
#[verifier::rlimit(40)]
pub proof fn lemma_rules_flagged(v: EngineView, ctx: RequestCtx)
    ensures
        ({
            let s = rules::surface_of(ctx);
            let r = v.rt.rules;
            let l = engine::rule_reasons(v, ctx);
            &&& decision::names(l, "SQLI-01"@) <==> r.sqli && rules::sqli::scan_of(v.patterns.sqli, s) is Some
            &&& decision::names(l, "XSS-01"@) <==> r.xss && rules::xss::scan_of(v.patterns.xss, s) is Some
            &&& decision::names(l, "TRAV-01"@) <==> r.traversal && rules::traversal::scan_of(v.patterns.traversal, s) is Some
            &&& decision::names(l, "CMDI-01"@) <==> r.cmdi && rules::cmdi::scan_of(v.patterns.cmdi, s) is Some
            &&& decision::names(l, "LFI-01"@) <==> r.lfi && rules::lfi::scan_of(v.patterns.lfi, s) is Some
        }),
{
    broadcast use decision::group_reasons;

    lemma_rule_ids();
    let s = rules::surface_of(ctx);
    let r = v.rt.rules;
    rules::sqli::lemma_first_part_reported(v.patterns.sqli, s);
    rules::xss::lemma_first_part_reported(v.patterns.xss, s);
    rules::traversal::lemma_first_part_reported(v.patterns.traversal, s);
    rules::cmdi::lemma_first_part_reported(v.patterns.cmdi, s);
    rules::lfi::lemma_first_part_reported(v.patterns.lfi, s);
    lemma_scan_named(r.sqli, rules::sqli::scan_of(v.patterns.sqli, s), 80, "SQLI-01"@);
    lemma_scan_named(r.sqli, rules::sqli::scan_of(v.patterns.sqli, s), 80, "XSS-01"@);
    lemma_scan_named(r.sqli, rules::sqli::scan_of(v.patterns.sqli, s), 80, "TRAV-01"@);
    lemma_scan_named(r.sqli, rules::sqli::scan_of(v.patterns.sqli, s), 80, "CMDI-01"@);
    lemma_scan_named(r.sqli, rules::sqli::scan_of(v.patterns.sqli, s), 80, "LFI-01"@);
    lemma_scan_named(r.xss, rules::xss::scan_of(v.patterns.xss, s), 80, "SQLI-01"@);
    lemma_scan_named(r.xss, rules::xss::scan_of(v.patterns.xss, s), 80, "XSS-01"@);
    lemma_scan_named(r.xss, rules::xss::scan_of(v.patterns.xss, s), 80, "TRAV-01"@);
    lemma_scan_named(r.xss, rules::xss::scan_of(v.patterns.xss, s), 80, "CMDI-01"@);
    lemma_scan_named(r.xss, rules::xss::scan_of(v.patterns.xss, s), 80, "LFI-01"@);
    lemma_scan_named(r.traversal, rules::traversal::scan_of(v.patterns.traversal, s), 70, "SQLI-01"@);
    lemma_scan_named(r.traversal, rules::traversal::scan_of(v.patterns.traversal, s), 70, "XSS-01"@);
    lemma_scan_named(r.traversal, rules::traversal::scan_of(v.patterns.traversal, s), 70, "TRAV-01"@);
    lemma_scan_named(r.traversal, rules::traversal::scan_of(v.patterns.traversal, s), 70, "CMDI-01"@);
    lemma_scan_named(r.traversal, rules::traversal::scan_of(v.patterns.traversal, s), 70, "LFI-01"@);
    lemma_scan_named(r.cmdi, rules::cmdi::scan_of(v.patterns.cmdi, s), 80, "SQLI-01"@);
    lemma_scan_named(r.cmdi, rules::cmdi::scan_of(v.patterns.cmdi, s), 80, "XSS-01"@);
    lemma_scan_named(r.cmdi, rules::cmdi::scan_of(v.patterns.cmdi, s), 80, "TRAV-01"@);
    lemma_scan_named(r.cmdi, rules::cmdi::scan_of(v.patterns.cmdi, s), 80, "CMDI-01"@);
    lemma_scan_named(r.cmdi, rules::cmdi::scan_of(v.patterns.cmdi, s), 80, "LFI-01"@);
    lemma_scan_named(r.lfi, rules::lfi::scan_of(v.patterns.lfi, s), 70, "SQLI-01"@);
    lemma_scan_named(r.lfi, rules::lfi::scan_of(v.patterns.lfi, s), 70, "XSS-01"@);
    lemma_scan_named(r.lfi, rules::lfi::scan_of(v.patterns.lfi, s), 70, "TRAV-01"@);
    lemma_scan_named(r.lfi, rules::lfi::scan_of(v.patterns.lfi, s), 70, "CMDI-01"@);
    lemma_scan_named(r.lfi, rules::lfi::scan_of(v.patterns.lfi, s), 70, "LFI-01"@);
}

} // verus!
