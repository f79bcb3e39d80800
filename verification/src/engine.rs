//! Turns a request into a decision by running every check in a sensible order: first the lists
//! and limits that answer at once, then the gates that demand a proof, then the scoring.

use crate::behavior::{self, BehaviorTracker, BehaviorView};
use crate::bic::{self, Bic};
use crate::browser_check::{self, BrowserVerdict};
use crate::challenge::{self, Challenger};
use crate::clock::now_ms;
use crate::config::Config;
use crate::connections::{self, ConnTracker};
use crate::ddos;
use crate::decision::{self, copy_reasons, push_reason, push_when, reason, Action, Decision, DecisionReason, DecisionView, ReasonView};
use crate::events::{self, Event, EventLog, LogView};
use crate::goodbot::{self, BotsView, GoodBotVerifier, Verdict};
use crate::honeypots::{self, Honeypots};
use crate::metrics::{self, Metrics};
use crate::net::{self, any_contains};
use crate::num::{self, dec, dec_signed};
use crate::ratelimit::{self, RateLimitError, RateLimiter, RateView};
use crate::reputation::{self, RepView, Reputation, Reputations};
use crate::request::{self, RequestCtx, TextMap};
use crate::rules::{self, excerpt, Hit, PatternError, Surface};
use crate::rules::ua::{self, UaError, UaScanner};
use crate::runtime::{self, PersistedRuntime, PersistedView, Runtime, RuntimeView, UamLevel};
use crate::score::{
    SCORE_BAD_METHOD, SCORE_BAD_UA, SCORE_CMDI, SCORE_DENY_REPUTATION, SCORE_GEO_BLOCKED, SCORE_GEO_SUSPICIOUS,
    SCORE_HEADERLESS, SCORE_LFI, SCORE_MISSING_HOST, SCORE_MISSING_UA, SCORE_OVERSIZE_BODY, SCORE_OVERSIZE_HEAD,
    SCORE_OVERSIZE_URI, SCORE_RL_HIT, SCORE_SQLI_HIGH, SCORE_SUSPICIOUS_HEADER, SCORE_TRAVERSAL, SCORE_XSS_HIGH,
};
use crate::signature::{self, DistView, DistributedUa, ReplayView, RequestReplay};
use crate::storage::{self, Sink, SinkView};
use crate::subnet::{self, SubnetTracker, SubnetView};
use crate::table::Key;
use crate::text::{self, any_same_fold, byte_len, cat2, cat3, cat4, cat6, contains, quoted, same_text, to_lower, to_upper};
use regex::RegexSet;
use vstd::prelude::*;

verus! {

pub const W_DATACENTER: u32 = 25;

/// The compiled patterns of the rules.
pub struct RuleSets {
    pub sqli: RegexSet,
    pub xss: RegexSet,
    pub traversal: RegexSet,
    pub cmdi: RegexSet,
    pub lfi: RegexSet,
}

#[verifier::ext_equal]
pub struct PatternsView {
    pub sqli: Seq<Seq<char>>,
    pub xss: Seq<Seq<char>>,
    pub traversal: Seq<Seq<char>>,
    pub cmdi: Seq<Seq<char>>,
    pub lfi: Seq<Seq<char>>,
}

impl View for RuleSets {
    type V = PatternsView;

    open spec fn view(&self) -> PatternsView {
        PatternsView {
            sqli: rules::set_patterns(self.sqli),
            xss: rules::set_patterns(self.xss),
            traversal: rules::set_patterns(self.traversal),
            cmdi: rules::set_patterns(self.cmdi),
            lfi: rules::set_patterns(self.lfi),
        }
    }
}

/// The patterns that the rules look for.
pub open spec fn rule_patterns() -> PatternsView {
    PatternsView {
        sqli: rules::sqli::pattern_list(),
        xss: rules::xss::pattern_list(),
        traversal: rules::traversal::pattern_list(),
        cmdi: rules::cmdi::pattern_list(),
        lfi: rules::lfi::pattern_list(),
    }
}

pub struct Engine {
    pub cfg: Config,
    pub rate_limiter: RateLimiter,
    pub reputations: Reputations,
    pub challenger: Challenger,
    pub ua_scanner: UaScanner,
    pub rule_sets: RuleSets,
    pub metrics: Metrics,
    pub runtime: Runtime,
    pub events: EventLog,
    pub conns: ConnTracker,
    pub behavior: BehaviorTracker,
    pub subnets: SubnetTracker,
    pub honeypots: Honeypots,
    pub replay: RequestReplay,
    pub dist_ua: DistributedUa,
    pub goodbot: GoodBotVerifier,
    pub bic: Bic,
    /// The queue in front of the event store, where one is open.
    pub storage_sink: Option<Sink>,
    /// The file of the event store.
    pub storage_path: Option<String>,
}

#[verifier::ext_equal]
pub struct EngineView {
    pub cfg: Config,
    pub rate: RateView,
    pub rep: RepView,
    pub secret: Seq<u8>,
    pub cookie: Seq<char>,
    /// The lifetime of a clearance, in seconds.
    pub ttl: u64,
    /// The difficulty that was configured.
    pub difficulty: u8,
    pub bic_secret: Seq<u8>,
    pub words: Seq<Seq<char>>,
    pub patterns: PatternsView,
    pub rate_limited: u64,
    pub rt: RuntimeView,
    pub log: LogView,
    pub conns: Map<Key, i64>,
    pub behavior: BehaviorView,
    pub subnets: SubnetView,
    pub traps: Seq<Seq<char>>,
    pub replay: ReplayView,
    pub dist: DistView,
    pub bots: BotsView,
    pub sink: Option<SinkView>,
    pub storage_path: Option<Seq<char>>,
}

pub open spec fn sink_view(s: Option<Sink>) -> Option<SinkView> {
    match s {
        Some(s) => Some(s@),
        None => None,
    }
}

impl View for Engine {
    type V = EngineView;

    open spec fn view(&self) -> EngineView {
        EngineView {
            cfg: self.cfg,
            rate: self.rate_limiter@,
            rep: self.reputations@,
            secret: self.challenger.spec_secret(),
            cookie: self.challenger.spec_name(),
            ttl: self.challenger.spec_ttl(),
            difficulty: self.challenger.spec_difficulty(),
            bic_secret: self.bic.spec_secret(),
            words: self.ua_scanner.words(),
            patterns: self.rule_sets@,
            rate_limited: self.metrics.rate_limited,
            rt: self.runtime@,
            log: self.events@,
            conns: self.conns@,
            behavior: self.behavior@,
            subnets: self.subnets@,
            traps: self.honeypots@,
            replay: self.replay@,
            dist: self.dist_ua@,
            bots: self.goodbot@,
            sink: sink_view(self.storage_sink),
            storage_path: self.storage_path.deep_view(),
        }
    }
}

/// What is known of a request from outside the engine: the reasons that header heuristics give,
/// and whether the address belongs to a hosting network.
pub struct Signals {
    pub bot_reasons: Vec<DecisionReason>,
    pub from_datacenter: bool,
}

#[verifier::ext_equal]
pub struct SignalsView {
    pub bot_reasons: Seq<ReasonView>,
    pub from_datacenter: bool,
}

impl View for Signals {
    type V = SignalsView;

    open spec fn view(&self) -> SignalsView {
        SignalsView { bot_reasons: decision::views(self.bot_reasons@), from_datacenter: self.from_datacenter }
    }
}

impl Signals {
    /// Nothing known.
    pub fn none() -> (r: Signals)
        ensures
            r@ == (SignalsView { bot_reasons: seq![], from_datacenter: false }),
    {
        let r = Signals { bot_reasons: Vec::new(), from_datacenter: false };
        assert(r@.bot_reasons =~= seq![]);
        r
    }
}

/// How much a level of the under-attack mode tightens.
#[derive(Debug, Clone, Copy, PartialEq, Eq, Structural)]
pub struct UamParams {
    /// Every fresh client has to pass the challenge.
    pub force_challenge: bool,
    /// The part of the rate ceilings that is left, in basis points.
    pub rpm_scale_bps: u32,
    /// What is taken off the challenge threshold.
    pub challenge_drop: u32,
    /// What is taken off the block threshold.
    pub block_drop: u32,
    /// The cap of requests in flight per address; zero leaves it alone.
    pub conn_cap_clamp: u32,
}

/// The level in force: the older switch stands for the medium level.
pub open spec fn effective_level(rt: RuntimeView) -> UamLevel {
    if runtime::level_of(rt.uam_level) == UamLevel::Off && rt.under_attack {
        UamLevel::Medium
    } else {
        runtime::level_of(rt.uam_level)
    }
}

pub open spec fn params_of(l: UamLevel) -> UamParams {
    match l {
        UamLevel::Off => UamParams {
            force_challenge: false,
            rpm_scale_bps: 10_000,
            challenge_drop: 0,
            block_drop: 0,
            conn_cap_clamp: 0,
        },
        UamLevel::Low => UamParams {
            force_challenge: false,
            rpm_scale_bps: 7_500,
            challenge_drop: 5,
            block_drop: 5,
            conn_cap_clamp: 0,
        },
        UamLevel::Medium => UamParams {
            force_challenge: true,
            rpm_scale_bps: 5_000,
            challenge_drop: 10,
            block_drop: 10,
            conn_cap_clamp: 0,
        },
        UamLevel::High => UamParams {
            force_challenge: true,
            rpm_scale_bps: 2_500,
            challenge_drop: 15,
            block_drop: 15,
            conn_cap_clamp: 50,
        },
        UamLevel::Extreme => UamParams {
            force_challenge: true,
            rpm_scale_bps: 1_000,
            challenge_drop: 20,
            block_drop: 20,
            conn_cap_clamp: 25,
        },
    }
}

/// The difficulty of a fresh challenge: one step above the base at the two highest levels, and
/// never above five.
pub open spec fn difficulty_for(base: u8, level: UamLevel) -> u8 {
    let raised = if level == UamLevel::High || level == UamLevel::Extreme {
        base + 1
    } else {
        base as int
    };
    if raised > 5 {
        5
    } else {
        raised as u8
    }
}

// ---------------------------------------------------------------------------
// The gates that answer at once
// ---------------------------------------------------------------------------

pub open spec fn rep_deny() -> ReasonView {
    decision::reason_of("REP-DENY"@, "reputation"@, SCORE_DENY_REPUTATION, "ip on deny list or auto-banned"@)
}

pub open spec fn rep_deny_runtime() -> ReasonView {
    decision::reason_of("REP-DENY-RT"@, "reputation"@, SCORE_DENY_REPUTATION, "ip on runtime deny list"@)
}

/// The lists and the bans. The allow lists go before everything else.
pub open spec fn gate_lists(v: EngineView, ctx: RequestCtx, now_s: u64) -> Option<DecisionView> {
    let ip = ctx.client_ip;
    let id = ctx.request_id@;
    if net::any_covers(v.rt.allow, ip) || reputation::standing(v.rep, now_s, ip) == Reputation::Allow {
        Some(DecisionView::allow(id))
    } else if reputation::standing(v.rep, now_s, ip) == Reputation::Deny {
        Some(DecisionView::block(id, 403, rep_deny()))
    } else if net::any_covers(v.rt.deny, ip) {
        Some(DecisionView::block(id, 403, rep_deny_runtime()))
    } else {
        None
    }
}

/// What the claim of a client to be a known bot comes to.
pub open spec fn bot_verdict(v: EngineView, ctx: RequestCtx, now_s: u64) -> goodbot::VerdictView {
    if v.rt.defenses.goodbot {
        goodbot::verdict_for(v.bots, now_s, ctx.client_ip, ctx.user_agent@)
    } else {
        goodbot::VerdictView::NotABot
    }
}

/// The state after the claim was looked at.
pub open spec fn after_bots(v: EngineView, ctx: RequestCtx, now_s: u64) -> EngineView {
    if v.rt.defenses.goodbot {
        EngineView { bots: goodbot::after_claim(v.bots, now_s, ctx.client_ip, ctx.user_agent@), ..v }
    } else {
        v
    }
}

/// The reason that a refuted claim gives.
pub open spec fn spoof_of(verdict: goodbot::VerdictView) -> Option<ReasonView> {
    match verdict {
        goodbot::VerdictView::GoodBotSpoofed(name) => Some(goodbot::spoof_view(name)),
        _ => None,
    }
}

/// The traps.
pub open spec fn gate_traps(v: EngineView, ctx: RequestCtx) -> Option<DecisionView> {
    if v.rt.defenses.honeypots {
        match honeypots::trap_reason(v.traps, ctx.path@) {
            Some(r) => Some(DecisionView::block(ctx.request_id@, 403, r)),
            None => None,
        }
    } else {
        None
    }
}

/// The state after an address fell into a trap: it is banned.
pub open spec fn after_trap(v: EngineView, ctx: RequestCtx, now_s: u64) -> EngineView {
    EngineView {
        rep: reputation::after_ban(v.rep, now_s, ctx.client_ip, v.cfg.reputation.auto_ban_duration_secs),
        ..v
    }
}

/// The cap of requests in flight per address; zero for none.
pub open spec fn conn_cap(rt: RuntimeView) -> int {
    let clamp = params_of(effective_level(rt)).conn_cap_clamp;
    if clamp > 0 && clamp < rt.max_concurrent_per_ip {
        clamp as int
    } else {
        rt.max_concurrent_per_ip as int
    }
}

/// The cap of requests in flight per address.
pub open spec fn gate_conns(v: EngineView, ctx: RequestCtx) -> Option<DecisionView> {
    let n = connections::count_at(v.conns, ctx.client_ip.spec_key());
    let cap = conn_cap(v.rt);
    if cap > 0 && n > cap {
        Some(
            DecisionView::block(
                ctx.request_id@,
                429,
                decision::reason_of(
                    "CONN-CAP"@,
                    "ddos"@,
                    SCORE_DENY_REPUTATION,
                    num::dec_int(n as int) + " concurrent > cap "@ + num::dec_int(cap),
                ),
            ),
        )
    } else {
        None
    }
}

/// The first header whose value is longer than `max` bytes, or the number of headers.
pub open spec fn first_long(entries: Seq<request::Pair>, max: nat) -> int
    decreases entries.len(),
{
    if entries.len() == 0 || text::utf8_len(entries[0].1) > max {
        0
    } else {
        1 + first_long(entries.drop_first(), max)
    }
}

/// The absolute limits: method, length of the address, number and length of the headers, length
/// of the body.
pub open spec fn gate_limits(v: EngineView, ctx: RequestCtx) -> Option<DecisionView> {
    let l = v.cfg.limits;
    let id = ctx.request_id@;
    let uri = text::utf8_len(ctx.uri@);
    let long = first_long(ctx.headers@, l.max_header_value_bytes as nat);
    if !text::any_fold(l.allowed_methods.deep_view(), ctx.method@) {
        Some(
            DecisionView::block(
                id,
                405,
                decision::reason_of("METHOD-DENIED"@, "method"@, SCORE_BAD_METHOD, ctx.method@),
            ),
        )
    } else if uri > l.max_uri_bytes {
        Some(
            DecisionView::block(
                id,
                414,
                decision::reason_of(
                    "URI-TOO-LONG"@,
                    "limit"@,
                    SCORE_OVERSIZE_URI,
                    "uri="@ + num::dec_text(uri) + "B max="@ + num::dec_text(l.max_uri_bytes as nat) + "B"@,
                ),
            ),
        )
    } else if ctx.headers@.len() > l.max_headers {
        Some(
            DecisionView::block(
                id,
                431,
                decision::reason_of(
                    "TOO-MANY-HEADERS"@,
                    "limit"@,
                    SCORE_OVERSIZE_HEAD,
                    "count="@ + num::dec_text(ctx.headers@.len()),
                ),
            ),
        )
    } else if long < ctx.headers@.len() {
        Some(
            DecisionView::block(
                id,
                431,
                decision::reason_of(
                    "HEADER-TOO-LONG"@,
                    "limit"@,
                    SCORE_OVERSIZE_HEAD,
                    "len="@ + num::dec_text(text::utf8_len(ctx.headers@[long].1)) + "B"@,
                ),
            ),
        )
    } else if ctx.content_length matches Some(n) && n > l.max_body_bytes {
        Some(
            DecisionView::block(
                id,
                413,
                decision::reason_of(
                    "BODY-TOO-LARGE"@,
                    "limit"@,
                    SCORE_OVERSIZE_BODY,
                    "len="@ + num::dec_text(ctx.content_length->0 as nat) + "B max="@ + num::dec_text(
                        l.max_body_bytes as nat,
                    ) + "B"@,
                ),
            ),
        )
    } else {
        None
    }
}

/// The part of the rate ceilings that is left.
pub open spec fn rate_scale(rt: RuntimeView) -> u32 {
    let bps = params_of(effective_level(rt)).rpm_scale_bps;
    if bps < 10_000 {
        bps
    } else if rt.under_attack {
        rt.rpm_under_attack_bps
    } else {
        10_000
    }
}

/// The rate limit.
pub open spec fn gate_rate(v: EngineView, ctx: RequestCtx, now_s: u64) -> Option<DecisionView> {
    if v.rt.rules.rate_limit {
        match ratelimit::limit_of(v.rate, now_s, ctx.client_ip, ctx.path@, rate_scale(v.rt)) {
            Some(l) => Some(
                DecisionView::block(
                    ctx.request_id@,
                    429,
                    decision::reason_of(
                        "RL-01"@,
                        "rate_limit"@,
                        SCORE_RL_HIT,
                        "scope="@ + l.scope + " retry_after="@ + num::dec_text(l.retry_after as nat) + "s path="@
                            + l.path,
                    ),
                ),
            ),
            None => None,
        }
    } else {
        None
    }
}

/// The state after the rate limit was looked at.
pub open spec fn after_rate(v: EngineView, ctx: RequestCtx, now_s: u64) -> EngineView {
    if v.rt.rules.rate_limit {
        EngineView {
            rate: ratelimit::after_check(v.rate, now_s, ctx.client_ip, ctx.path@, rate_scale(v.rt)),
            rate_limited: if gate_rate(v, ctx, now_s) is Some {
                v.rate_limited.wrapping_add(1)
            } else {
                v.rate_limited
            },
            ..v
        }
    } else {
        v
    }
}

/// Whether the client holds a clearance.
pub open spec fn cleared(v: EngineView, ctx: RequestCtx, now_s: u64) -> bool {
    match request::lookup(ctx.cookies@, v.cookie) {
        Some(value) => challenge::clearance_accepted(v.secret, now_s, value),
        None => false,
    }
}

/// Whether the client has passed the silent integrity check.
pub open spec fn integrity_shown(v: EngineView, ctx: RequestCtx, now_s: u64) -> bool {
    v.rt.defenses.bic && match request::lookup(ctx.cookies@, bic::BIC_COOKIE_NAME@) {
        Some(value) => bic::cookie_accepted(v.bic_secret, now_s, value, ctx.client_ip),
        None => false,
    }
}

// ---------------------------------------------------------------------------
// The gates that demand a proof
// ---------------------------------------------------------------------------

pub open spec fn lockdown_forged(why: Seq<char>) -> ReasonView {
    decision::reason_of(
        "LOCKDOWN-FORGED"@,
        "lockdown"@,
        SCORE_DENY_REPUTATION,
        "forged browser fingerprint: "@ + why,
    )
}

pub open spec fn lockdown_unverified() -> ReasonView {
    decision::reason_of(
        "LOCKDOWN-UNVERIFIED"@,
        "lockdown"@,
        100,
        "client could not prove it is a real browser"@,
    )
}

pub open spec fn uam_force(level: u8) -> ReasonView {
    decision::reason_of(
        "UAM-FORCE"@,
        "anti_ddos"@,
        100,
        "uam="@ + runtime::level_text(runtime::level_of(level)) + " forcing challenge"@,
    )
}

/// Whether the lockdown is in force.
pub open spec fn lockdown_on(rt: RuntimeView) -> bool {
    runtime::locked_down(rt) && rt.defenses.browser_integrity
}

/// The lockdown, or where it is off the forced challenge. Under lockdown an impossible
/// fingerprint is blocked, and a client that cannot be vouched for is challenged unless it has
/// passed the silent check.
pub open spec fn gate_browser(v: EngineView, ctx: RequestCtx, now_s: u64) -> Option<DecisionView> {
    let id = ctx.request_id@;
    if lockdown_on(v.rt) {
        match browser_check::verdict_of(ctx) {
            browser_check::VerdictView::Forged(why) => Some(DecisionView::block(id, 403, lockdown_forged(why))),
            browser_check::VerdictView::Unverified => if integrity_shown(v, ctx, now_s) {
                None
            } else {
                Some(DecisionView::challenge(id, 100, seq![lockdown_unverified()]))
            },
            browser_check::VerdictView::Trusted => None,
        }
    } else if params_of(effective_level(v.rt)).force_challenge {
        Some(DecisionView::challenge(id, 100, seq![uam_force(v.rt.uam_level)]))
    } else {
        None
    }
}

/// The state after that gate: a forged fingerprint is an offence.
pub open spec fn after_browser(v: EngineView, ctx: RequestCtx, now_s: u64) -> EngineView {
    if lockdown_on(v.rt) && browser_check::verdict_of(ctx) is Forged {
        EngineView { rep: reputation::after_offence(v.rep, now_s, ctx.client_ip), ..v }
    } else {
        v
    }
}

// ---------------------------------------------------------------------------
// The scoring
// ---------------------------------------------------------------------------

pub open spec fn geo_reason(v: EngineView, ctx: RequestCtx) -> Option<ReasonView> {
    match ctx.country {
        None => None,
        Some(c) => {
            let cc = text::upper_text(c@);
            if text::any_fold(v.rt.blocked_countries, cc) || text::any_fold(
                v.cfg.geoip.block_countries.deep_view(),
                cc,
            ) {
                Some(decision::reason_of("GEO-BLOCKED"@, "geoip"@, SCORE_GEO_BLOCKED, "country="@ + cc))
            } else if text::any_fold(v.cfg.geoip.suspicious_countries.deep_view(), cc) {
                Some(decision::reason_of("GEO-SUSPICIOUS"@, "geoip"@, SCORE_GEO_SUSPICIOUS, "country="@ + cc))
            } else {
                None
            }
        },
    }
}

/// Whether a request gives its length and sends it in chunks as well.
pub open spec fn smuggles(ctx: RequestCtx) -> bool {
    request::has_key(ctx.headers@, "content-length"@) && match request::lookup(ctx.headers@, "transfer-encoding"@) {
        Some(v) => text::has_text(text::lower_text(v), "chunked"@),
        None => false,
    }
}

pub open spec fn header_reasons_of(ctx: RequestCtx) -> Seq<ReasonView> {
    decision::when(
        ctx.host@.len() == 0,
        decision::reason_of("HDR-NO-HOST"@, "headers"@, SCORE_MISSING_HOST, "Host header missing"@),
    ) + decision::when(
        ctx.user_agent@.len() == 0,
        decision::reason_of("HDR-NO-UA"@, "headers"@, SCORE_MISSING_UA, "User-Agent missing"@),
    ) + decision::when(
        ctx.headers@.len() < 3,
        decision::reason_of(
            "HDR-MINIMAL"@,
            "headers"@,
            SCORE_HEADERLESS,
            "only "@ + num::dec_text(ctx.headers@.len()) + " headers present"@,
        ),
    ) + decision::when(
        smuggles(ctx),
        decision::reason_of(
            "HDR-CL-TE"@,
            "smuggling"@,
            SCORE_SUSPICIOUS_HEADER,
            "Content-Length + Transfer-Encoding: chunked"@,
        ),
    )
}

/// Whether a request shows the marks that browsers set on everything and tools forget.
pub open spec fn browserish(ctx: RequestCtx) -> bool {
    request::has_key_prefix(ctx.headers@, "sec-fetch-"@) && request::has_key(ctx.headers@, "accept-language"@)
}

pub open spec fn hit_reason(h: rules::HitView, score: u32) -> ReasonView {
    decision::reason_of(
        h.rule_id,
        h.category,
        score,
        "field="@ + h.matched_field + " excerpt="@ + text::debug_text(h.matched_excerpt),
    )
}

/// The reason that a scan gives, where its rule is on.
pub open spec fn scan_reason(on: bool, h: Option<rules::HitView>, score: u32) -> Seq<ReasonView> {
    match h {
        Some(h) => decision::when(on, hit_reason(h, score)),
        None => seq![],
    }
}

/// The reasons that the rules give.
pub open spec fn rule_reasons(v: EngineView, ctx: RequestCtx) -> Seq<ReasonView> {
    let s = rules::surface_of(ctx);
    let on = v.rt.rules;
    scan_reason(on.sqli, rules::sqli::scan_of(v.patterns.sqli, s), SCORE_SQLI_HIGH) + scan_reason(
        on.xss,
        rules::xss::scan_of(v.patterns.xss, s),
        SCORE_XSS_HIGH,
    ) + scan_reason(on.traversal, rules::traversal::scan_of(v.patterns.traversal, s), SCORE_TRAVERSAL) + scan_reason(
        on.cmdi,
        rules::cmdi::scan_of(v.patterns.cmdi, s),
        SCORE_CMDI,
    ) + scan_reason(on.lfi, rules::lfi::scan_of(v.patterns.lfi, s), SCORE_LFI)
}

pub open spec fn ua_reason(v: EngineView, ctx: RequestCtx) -> Seq<ReasonView> {
    decision::when(
        v.rt.rules.bot_ua && ctx.user_agent@.len() > 0 && ua::some_word_occurs(v.words, ctx.user_agent@),
        decision::reason_of("UA-SUSPICIOUS"@, "ua"@, SCORE_BAD_UA, rules::excerpt_of(ctx.user_agent@)),
    )
}

pub open spec fn datacenter_reason(v: EngineView, sig: SignalsView) -> Seq<ReasonView> {
    decision::when(
        v.rt.datacenter_block && sig.from_datacenter,
        decision::reason_of("DC-RANGE"@, "asn"@, W_DATACENTER, "source ip within hosting/cloud CIDR"@),
    )
}

/// The reasons of the outside heuristics, where they are wanted.
pub open spec fn bot_reasons(v: EngineView, ctx: RequestCtx, pending: bool, sig: SignalsView, now_s: u64) -> Seq<
    ReasonView,
> {
    if !pending && !integrity_shown(v, ctx, now_s) && v.rt.defenses.bot_score {
        sig.bot_reasons
    } else {
        seq![]
    }
}

pub open spec fn behavior_reasons(v: EngineView, ctx: RequestCtx, now_ms: u64) -> Seq<ReasonView> {
    if v.rt.defenses.behavior {
        behavior::reasons_for(
            v.behavior,
            now_ms,
            ctx.client_ip,
            ctx.path@,
            ctx.method@,
            ctx.user_agent@,
            browserish(ctx),
        )
    } else {
        seq![]
    }
}

pub open spec fn ddos_reasons(v: EngineView, ctx: RequestCtx) -> Seq<ReasonView> {
    if v.rt.defenses.ddos {
        ddos::anomalies(ctx)
    } else {
        seq![]
    }
}

pub open spec fn subnet_reasons(v: EngineView, ctx: RequestCtx, now_s: u64) -> Seq<ReasonView> {
    if v.rt.defenses.subnet {
        subnet::reasons_for(v.subnets, now_s, ctx.client_ip, v.rt.subnet_rpm, v.rt.subnet_conn as i64)
    } else {
        seq![]
    }
}

/// Whether runs of equal requests are counted: not those of browsers, which poll.
pub open spec fn replay_wanted(v: EngineView, ctx: RequestCtx) -> bool {
    v.rt.defenses.replay && !browserish(ctx)
}

pub open spec fn replay_hash(ctx: RequestCtx) -> u64 {
    crate::hash::fnv_of_three(ctx.method@, ctx.path@, ctx.user_agent@)
}

pub open spec fn replay_reasons(v: EngineView, ctx: RequestCtx, now_s: u64) -> Seq<ReasonView> {
    if replay_wanted(v, ctx) {
        decision::listed(signature::replay_reason(v.replay, now_s, ctx.client_ip, replay_hash(ctx)))
    } else {
        seq![]
    }
}

/// Whether shared User-Agents are counted: not those of browsers, which many share.
pub open spec fn dist_wanted(v: EngineView, ctx: RequestCtx) -> bool {
    v.rt.defenses.dist_ua && !browserish(ctx) && ctx.user_agent@.len() > 0
}

pub open spec fn dist_reasons(v: EngineView, ctx: RequestCtx, now_s: u64) -> Seq<ReasonView> {
    if dist_wanted(v, ctx) {
        decision::listed(signature::dist_reason(v.dist, now_s, ctx.client_ip, ctx.user_agent@))
    } else {
        seq![]
    }
}

/// The reasons that the request gives by itself and by what is known of its client.
pub open spec fn client_reasons(
    v: EngineView,
    ctx: RequestCtx,
    spoof: Option<ReasonView>,
    pending: bool,
    sig: SignalsView,
    now_s: u64,
) -> Seq<ReasonView> {
    decision::listed(spoof) + decision::listed(geo_reason(v, ctx)) + header_reasons_of(ctx) + bot_reasons(
        v,
        ctx,
        pending,
        sig,
        now_s,
    )
}

/// The reasons that the request gives together with earlier ones.
pub open spec fn traffic_reasons(v: EngineView, ctx: RequestCtx, sig: SignalsView, now_ms: u64) -> Seq<ReasonView> {
    let now_s = now_ms / 1000;
    behavior_reasons(v, ctx, now_ms) + ddos_reasons(v, ctx) + datacenter_reason(v, sig) + subnet_reasons(
        v,
        ctx,
        now_s,
    ) + replay_reasons(v, ctx, now_s) + dist_reasons(v, ctx, now_s)
}

/// All reasons that a request gives, in their order.
pub open spec fn all_reasons(
    v: EngineView,
    ctx: RequestCtx,
    spoof: Option<ReasonView>,
    pending: bool,
    sig: SignalsView,
    now_ms: u64,
) -> Seq<ReasonView> {
    client_reasons(v, ctx, spoof, pending, sig, now_ms / 1000) + traffic_reasons(v, ctx, sig, now_ms) + (ua_reason(
        v,
        ctx,
    ) + rule_reasons(v, ctx))
}

/// The state after the request was noted by everything that remembers requests.
pub open spec fn after_scoring(v: EngineView, ctx: RequestCtx, now_ms: u64) -> EngineView {
    let now_s = now_ms / 1000;
    EngineView {
        behavior: if v.rt.defenses.behavior {
            behavior::observed(v.behavior, now_ms, ctx.client_ip, ctx.path@, ctx.method@, ctx.user_agent@)
        } else {
            v.behavior
        },
        subnets: if v.rt.defenses.subnet {
            subnet::observed(v.subnets, now_s, ctx.client_ip)
        } else {
            v.subnets
        },
        replay: if replay_wanted(v, ctx) {
            signature::replay_observed(v.replay, now_s, ctx.client_ip, replay_hash(ctx))
        } else {
            v.replay
        },
        dist: if dist_wanted(v, ctx) {
            signature::dist_observed(v.dist, now_s, ctx.client_ip, ctx.user_agent@)
        } else {
            v.dist
        },
        ..v
    }
}

pub open spec fn less(a: u32, b: u32) -> u32 {
    if a > b {
        (a - b) as u32
    } else {
        0
    }
}

pub open spec fn block_threshold(rt: RuntimeView) -> u32 {
    less(rt.block_threshold, params_of(effective_level(rt)).block_drop)
}

pub open spec fn challenge_threshold(rt: RuntimeView) -> u32 {
    less(rt.challenge_threshold, params_of(effective_level(rt)).challenge_drop)
}

pub open spec fn anomaly(score: u32) -> ReasonView {
    decision::reason_of("ANOMALY"@, "anomaly"@, score, "score over threshold"@)
}

/// The reason that is reported for a block.
pub open spec fn block_reason(d: DecisionView) -> ReasonView {
    match d.primary() {
        Some(r) => r,
        None => anomaly(d.score),
    }
}

/// What the thresholds make of a score and its reasons.
pub open spec fn verdict_on(rt: RuntimeView, d: DecisionView) -> DecisionView {
    if d.score >= block_threshold(rt) {
        if rt.tarpit_score > 0 && d.score >= rt.tarpit_score {
            DecisionView::tarpit(d.request_id, d.score, d.reasons)
        } else {
            DecisionView::block(d.request_id, 403, block_reason(d))
        }
    } else if d.score >= challenge_threshold(rt) {
        DecisionView::challenge(d.request_id, d.score, d.reasons)
    } else {
        DecisionView::allow(d.request_id)
    }
}

/// The state after the thresholds: a block is an offence.
pub open spec fn after_verdict(v: EngineView, ctx: RequestCtx, d: DecisionView, now_s: u64) -> EngineView {
    if d.score >= block_threshold(v.rt) {
        EngineView { rep: reputation::after_offence(v.rep, now_s, ctx.client_ip), ..v }
    } else {
        v
    }
}

/// The decision that carries all reasons and their sum.
pub open spec fn scored(id: Seq<char>, reasons: Seq<ReasonView>) -> DecisionView {
    DecisionView::allow(id).with_reasons(reasons)
}

// ---------------------------------------------------------------------------
// The whole
// ---------------------------------------------------------------------------

/// The decision on a request that passed the gates up to the clearance, and the state after it.
pub open spec fn judged(
    v: EngineView,
    ctx: RequestCtx,
    spoof: Option<ReasonView>,
    pending: bool,
    sig: SignalsView,
    now_ms: u64,
) -> (EngineView, DecisionView) {
    let now_s = now_ms / 1000;
    match gate_browser(v, ctx, now_s) {
        Some(d) => (after_browser(v, ctx, now_s), d),
        None => {
            let d = scored(ctx.request_id@, all_reasons(v, ctx, spoof, pending, sig, now_ms));
            (after_verdict(after_scoring(v, ctx, now_ms), ctx, d, now_s), verdict_on(v.rt, d))
        },
    }
}

/// The decision on a request that is on no list, and the state after it.
pub open spec fn examined(
    v: EngineView,
    ctx: RequestCtx,
    spoof: Option<ReasonView>,
    pending: bool,
    sig: SignalsView,
    now_ms: u64,
) -> (EngineView, DecisionView) {
    let now_s = now_ms / 1000;
    match gate_traps(v, ctx) {
        Some(d) => (after_trap(v, ctx, now_s), d),
        None => match gate_conns(v, ctx) {
            Some(d) => (v, d),
            None => match gate_limits(v, ctx) {
                Some(d) => (v, d),
                None => match gate_rate(v, ctx, now_s) {
                    Some(d) => (after_rate(v, ctx, now_s), d),
                    None => if cleared(v, ctx, now_s) {
                        (after_rate(v, ctx, now_s), DecisionView::allow(ctx.request_id@))
                    } else {
                        judged(after_rate(v, ctx, now_s), ctx, spoof, pending, sig, now_ms)
                    },
                },
            },
        },
    }
}

/// The decision on a request, and the state after it.
pub open spec fn decided(v: EngineView, ctx: RequestCtx, sig: SignalsView, now_ms: u64) -> (EngineView, DecisionView) {
    let now_s = now_ms / 1000;
    match gate_lists(v, ctx, now_s) {
        Some(d) => (v, d),
        None => {
            let verdict = bot_verdict(v, ctx, now_s);
            let w = after_bots(v, ctx, now_s);
            if verdict is GoodBotVerified {
                (w, DecisionView::allow(ctx.request_id@))
            } else {
                examined(w, ctx, spoof_of(verdict), verdict is GoodBotPending, sig, now_ms)
            }
        },
    }
}

/// The state after a decision was written down.
pub open spec fn finalized(v: EngineView, ctx: RequestCtx, d: DecisionView, now_ms: u64) -> EngineView {
    EngineView {
        log: events::logged(v.log, events::event_of(ctx, d, now_ms, events::LOG_UA_CHARS as nat)),
        sink: match v.sink {
            Some(s) => Some(
                storage::submitted(s, events::event_of(ctx, d, now_ms, events::STORED_CHARS as nat)),
            ),
            None => None,
        },
        ..v
    }
}

/// The state after a request.
pub open spec fn after_request(v: EngineView, ctx: RequestCtx, sig: SignalsView, now_ms: u64) -> EngineView {
    finalized(decided(v, ctx, sig, now_ms).0, ctx, decided(v, ctx, sig, now_ms).1, now_ms)
}

/// The decision on a request.
pub open spec fn decision_on(v: EngineView, ctx: RequestCtx, sig: SignalsView, now_ms: u64) -> DecisionView {
    decided(v, ctx, sig, now_ms).1
}

/// Whether an engine still issues the same clearances and has the same event store.
pub open spec fn kept_parts(a: Engine, b: Engine) -> bool {
    &&& b.challenger == a.challenger
    &&& b.storage_path == a.storage_path
}

/// What an evaluation leaves alone: the counters but for the one of rate limits, and the parts
/// that every request leaves alone.
pub open spec fn untouched(a: Engine, b: Engine) -> bool {
    &&& b.metrics == (Metrics { rate_limited: b.metrics.rate_limited, ..a.metrics })
    &&& kept_parts(a, b)
}

/// The settings in the form in which they are shown: with the traps, without the secret of the
/// captcha service.
pub open spec fn shown_form(v: EngineView) -> PersistedView {
    PersistedView { honeypot_paths: Some(v.traps), ..runtime::snapshot_of(v.rt) }
}

/// The settings in the form in which they are stored.
pub open spec fn stored_form(v: EngineView) -> PersistedView {
    PersistedView { turnstile_secret: Some(v.rt.turnstile_secret), ..shown_form(v) }
}

/// The state after stored settings were taken over.
pub open spec fn reloaded(v: EngineView, p: PersistedView) -> EngineView {
    EngineView {
        rt: runtime::applied(v.rt, p),
        traps: match p.honeypot_paths {
            Some(t) => t,
            None => v.traps,
        },
        ..v
    }
}

/// Whether everything that can be changed from the dashboard is, in `now`, what it was in
/// `stored`.
pub open spec fn settings_restored(stored: EngineView, now: EngineView) -> bool {
    &&& runtime::restored(stored.rt, now.rt)
    &&& now.rt.turnstile_secret == stored.rt.turnstile_secret
    &&& now.traps == stored.traps
}

/// The engine could not be built.
#[derive(Debug)]
pub struct EngineError {
    pub message: String,
}

proof fn lemma_first_long(entries: Seq<request::Pair>, max: nat, i: int)
    requires
        0 <= i <= entries.len(),
        forall|j: int| 0 <= j < i ==> text::utf8_len((#[trigger] entries[j]).1) <= max,
        i < entries.len() ==> text::utf8_len(entries[i].1) > max,
    ensures
        first_long(entries, max) == i,
    decreases entries.len(),
{
    if i > 0 {
        assert(text::utf8_len(entries[0].1) <= max);
        let rest = entries.drop_first();
        assert forall|j: int| 0 <= j < i - 1 implies text::utf8_len((#[trigger] rest[j]).1) <= max by {
            assert(rest[j] == entries[j + 1]);
        }
        lemma_first_long(rest, max, i - 1);
    }
}

fn find_long(headers: &TextMap, max: usize) -> (r: usize)
    ensures
        r == first_long(headers@, max as nat),
        r <= headers@.len(),
{
    let n: usize = headers.len();
    let mut i: usize = 0;
    while i < n && byte_len(headers.entry(i).1.as_str()) <= max
        invariant
            n == headers@.len(),
            i <= n,
            forall|j: int| 0 <= j < i ==> text::utf8_len((#[trigger] headers@[j]).1) <= max,
        decreases n - i,
    {
        i += 1;
    }
    proof {
        lemma_first_long(headers@, max as nat, i as int);
    }
    i
}

/// The reason for what a rule has found.
pub fn hit_to_reason(h: Hit, score: u32) -> (r: DecisionReason)
    ensures
        r@ == hit_reason(h@, score),
{
    let detail = cat4("field=", h.matched_field, " excerpt=", quoted(h.matched_excerpt.as_str()).as_str());
    DecisionReason { rule_id: h.rule_id, category: h.category, score, detail }
}

fn push_hit(out: &mut Vec<DecisionReason>, h: Option<Hit>, score: u32)
    ensures
        decision::views(final(out)@) == decision::views(old(out)@) + scan_reason(true, rules::hit_view(h), score),
{
    if let Some(h) = h {
        push_reason(out, hit_to_reason(h, score));
    }
    assert(decision::views(out@) =~= decision::views(old(out)@) + scan_reason(true, rules::hit_view(h), score));
}

fn push_opt(out: &mut Vec<DecisionReason>, r: Option<DecisionReason>)
    ensures
        decision::views(final(out)@) == decision::views(old(out)@) + decision::listed(signature::reason_view(r)),
{
    if let Some(r) = r {
        push_reason(out, r);
    }
    assert(decision::views(out@) =~= decision::views(old(out)@) + decision::listed(signature::reason_view(r)));
}

fn push_all(out: &mut Vec<DecisionReason>, list: Vec<DecisionReason>)
    ensures
        decision::views(final(out)@) == decision::views(old(out)@) + decision::views(list@),
{
    let mut list = list;
    let ghost before = out@;
    let ghost more = list@;
    out.append(&mut list);
    assert(decision::views(out@) =~= decision::views(before) + decision::views(more));
}

/// The reasons that the headers of a request give.
pub fn header_reasons(ctx: &RequestCtx) -> (r: Vec<DecisionReason>)
    ensures
        decision::views(r@) == header_reasons_of(*ctx),
{
    proof {
        reveal_strlit("");
        assert(ctx.host@.len() == 0 ==> ctx.host@ =~= ""@);
        assert(ctx.user_agent@.len() == 0 ==> ctx.user_agent@ =~= ""@);
    }
    let mut out: Vec<DecisionReason> = Vec::new();
    assert(decision::views(out@) =~= seq![]);
    push_when(
        &mut out,
        same_text(ctx.host.as_str(), ""),
        reason("HDR-NO-HOST", "headers", SCORE_MISSING_HOST, "Host header missing".to_string()),
    );
    push_when(
        &mut out,
        same_text(ctx.user_agent.as_str(), ""),
        reason("HDR-NO-UA", "headers", SCORE_MISSING_UA, "User-Agent missing".to_string()),
    );
    let n: usize = ctx.headers.len();
    push_when(
        &mut out,
        n < 3,
        reason(
            "HDR-MINIMAL",
            "headers",
            SCORE_HEADERLESS,
            cat3("only ", dec(n as u64).as_str(), " headers present"),
        ),
    );
    let has_te = match ctx.headers.get("transfer-encoding") {
        Some(v) => contains(to_lower(v.as_str()).as_str(), "chunked"),
        None => false,
    };
    push_when(
        &mut out,
        ctx.headers.contains_key("content-length") && has_te,
        reason(
            "HDR-CL-TE",
            "smuggling",
            SCORE_SUSPICIOUS_HEADER,
            "Content-Length + Transfer-Encoding: chunked".to_string(),
        ),
    );
    assert(decision::views(out@) =~= header_reasons_of(*ctx));
    out
}

fn is_browserish(ctx: &RequestCtx) -> (r: bool)
    ensures
        r == browserish(*ctx),
{
    ctx.headers.any_key_starts("sec-fetch-") && ctx.headers.contains_key("accept-language")
}

impl Engine {
    pub open spec fn wf(&self) -> bool {
        &&& self.rate_limiter.wf()
        &&& self.reputations.wf()
        &&& self.challenger.wf()
        &&& self.metrics.wf()
        &&& self.runtime.wf()
        &&& self.conns.wf()
        &&& self.behavior.wf()
        &&& self.subnets.wf()
        &&& self.replay.wf()
        &&& self.dist_ua.wf()
        &&& self.goodbot.wf()
    }

    /// Translates the level of the under-attack mode into what it tightens.
    pub fn uam_params(&self) -> (r: UamParams)
        ensures
            r == params_of(effective_level(self.runtime@)),
    {
        let mut lvl = self.runtime.uam();
        if lvl == UamLevel::Off && self.runtime.under_attack {
            lvl = UamLevel::Medium;
        }
        match lvl {
            UamLevel::Off => UamParams {
                force_challenge: false,
                rpm_scale_bps: 10_000,
                challenge_drop: 0,
                block_drop: 0,
                conn_cap_clamp: 0,
            },
            UamLevel::Low => UamParams {
                force_challenge: false,
                rpm_scale_bps: 7_500,
                challenge_drop: 5,
                block_drop: 5,
                conn_cap_clamp: 0,
            },
            UamLevel::Medium => UamParams {
                force_challenge: true,
                rpm_scale_bps: 5_000,
                challenge_drop: 10,
                block_drop: 10,
                conn_cap_clamp: 0,
            },
            UamLevel::High => UamParams {
                force_challenge: true,
                rpm_scale_bps: 2_500,
                challenge_drop: 15,
                block_drop: 15,
                conn_cap_clamp: 50,
            },
            UamLevel::Extreme => UamParams {
                force_challenge: true,
                rpm_scale_bps: 1_000,
                challenge_drop: 20,
                block_drop: 20,
                conn_cap_clamp: 25,
            },
        }
    }

    /// The difficulty of a fresh challenge.
    pub fn pow_difficulty_for_uam(&self) -> (r: u8)
        ensures
            r == difficulty_for(self.challenger.spec_difficulty(), runtime::level_of(self.runtime.uam_level)),
    {
        let base: u8 = self.challenger.base_difficulty();
        let bump: u8 = match self.runtime.uam() {
            UamLevel::High | UamLevel::Extreme => 1,
            _ => 0,
        };
        let raised: u8 = base.saturating_add(bump);
        if raised > 5 {
            5
        } else {
            raised
        }
    }

    /// Whether the requests in flight have reached the hard ceiling.
    pub fn at_capacity(&self) -> (r: bool)
        requires
            self.wf(),
        ensures
            r == (self.runtime.global_inflight_cap > 0 && connections::sum_of(self.conns@)
                >= self.runtime.global_inflight_cap),
    {
        let cap: i64 = self.runtime.global_inflight_cap as i64;
        if cap == 0 {
            return false;
        }
        self.conns.total() >= cap
    }

    /// The settings as they are shown.
    pub fn shown(&self) -> (r: PersistedRuntime)
        ensures
            r@ == shown_form(self@),
    {
        let mut r = self.runtime.snapshot();
        r.honeypot_paths = Some(self.honeypots.snapshot());
        assert(r@ =~= shown_form(self@));
        r
    }

    /// The settings as they are stored.
    pub fn stored(&self) -> (r: PersistedRuntime)
        ensures
            r@ == stored_form(self@),
    {
        let mut r = self.shown();
        r.turnstile_secret = Some(self.runtime.turnstile_secret.clone());
        assert(r@ =~= stored_form(self@));
        r
    }

    /// Takes over stored settings. Everything that an engine has stored is there again afterwards.
    pub fn restore(&mut self, p: &PersistedRuntime)
        requires
            old(self).wf(),
        ensures
            final(self).wf(),
            final(self)@ == reloaded(old(self)@, p@),
            final(self).metrics == old(self).metrics,
            kept_parts(*old(self), *final(self)),
            forall|stored: EngineView|
                runtime::nets_wf(stored.rt.allow) && runtime::nets_wf(stored.rt.deny) && p@ == #[trigger] stored_form(
                    stored,
                ) ==> settings_restored(stored, final(self)@),
    {
        self.runtime.apply_persisted(p);
        if let Some(paths) = &p.honeypot_paths {
            self.honeypots.replace(text::copy_list(paths));
        }
        assert(self@ =~= reloaded(old(self)@, p@));
        assert forall|stored: EngineView|
            runtime::nets_wf(stored.rt.allow) && runtime::nets_wf(stored.rt.deny) && p@ == #[trigger] stored_form(
                stored,
            ) implies settings_restored(stored, self@) by {
            assert(runtime::stores(p@, stored.rt));
        }
    }

    /// Puts a queue in front of the event store.
    pub fn attach_storage(&mut self, sink: Sink)
        requires
            old(self).wf(),
        ensures
            final(self).wf(),
            final(self)@ == (EngineView { sink: Some(sink@), ..old(self)@ }),
            final(self).metrics == old(self).metrics,
            untouched(*old(self), *final(self)),
    {
        self.storage_sink = Some(sink);
        assert(self@ =~= (EngineView { sink: Some(sink@), ..old(self)@ }));
    }

    /// The file of the event store.
    pub fn storage_path(&self) -> (r: Option<String>)
        ensures
            r.deep_view() == self.storage_path.deep_view(),
    {
        text::copy_opt(&self.storage_path)
    }

    pub fn set_storage_path(&mut self, p: String)
        requires
            old(self).wf(),
        ensures
            final(self).wf(),
            final(self)@ == (EngineView { storage_path: Some(p@), ..old(self)@ }),
            *final(self) == (Engine { storage_path: Some(p), ..*old(self) }),
    {
        self.storage_path = Some(p);
        assert(self@ =~= (EngineView { storage_path: Some(p@), ..old(self)@ }));
    }

    /// The file of the event store, for queries.
    pub fn runtime_state_db_path(&self) -> (r: Option<String>)
        ensures
            r.deep_view() == self.storage_path.deep_view(),
    {
        self.storage_path()
    }

    fn list_gate(&self, ctx: &RequestCtx, now_s: u64) -> (r: Option<Decision>)
        requires
            self.wf(),
        ensures
            decision_view(r) == gate_lists(self@, *ctx, now_s),
    {
        let ip = ctx.client_ip;
        let id = ctx.request_id.clone();
        if any_contains(&self.runtime.allow, ip) {
            return Some(Decision::allow(id));
        }
        match self.reputations.classify_at(now_s, ip) {
            Reputation::Allow => {
                return Some(Decision::allow(id));
            },
            Reputation::Deny => {
                let r = reason(
                    "REP-DENY",
                    "reputation",
                    SCORE_DENY_REPUTATION,
                    "ip on deny list or auto-banned".to_string(),
                );
                return Some(Decision::block(id, 403, r));
            },
            Reputation::Unknown => {},
        }
        if any_contains(&self.runtime.deny, ip) {
            let r = reason(
                "REP-DENY-RT",
                "reputation",
                SCORE_DENY_REPUTATION,
                "ip on runtime deny list".to_string(),
            );
            return Some(Decision::block(id, 403, r));
        }
        None
    }

    fn claim_gate(&mut self, ctx: &RequestCtx, now_s: u64) -> (r: Verdict)
        requires
            old(self).wf(),
        ensures
            final(self).wf(),
            untouched(*old(self), *final(self)),
            final(self)@ == after_bots(old(self)@, *ctx, now_s),
            r@ == bot_verdict(old(self)@, *ctx, now_s),
    {
        if self.runtime.defenses.goodbot {
            let v = self.goodbot.classify_at(now_s, ctx.client_ip, ctx.user_agent.as_str());
            assert(self@ =~= after_bots(old(self)@, *ctx, now_s));
            v
        } else {
            Verdict::NotABot
        }
    }

    fn trap_gate(&mut self, ctx: &RequestCtx, now_s: u64) -> (r: Option<Decision>)
        requires
            old(self).wf(),
        ensures
            final(self).wf(),
            untouched(*old(self), *final(self)),
            decision_view(r) == gate_traps(old(self)@, *ctx),
            final(self)@ == (if r is Some {
                after_trap(old(self)@, *ctx, now_s)
            } else {
                old(self)@
            }),
    {
        if self.runtime.defenses.honeypots {
            if let Some(r) = self.honeypots.check(ctx.path.as_str()) {
                let secs: u64 = self.cfg.reputation.auto_ban_duration_secs;
                let _ = self.reputations.force_ban_at(now_s, ctx.client_ip, secs);
                assert(self@ =~= after_trap(old(self)@, *ctx, now_s));
                return Some(Decision::block(ctx.request_id.clone(), 403, r));
            }
        }
        None
    }

    fn conn_gate(&self, ctx: &RequestCtx) -> (r: Option<Decision>)
        requires
            self.wf(),
        ensures
            decision_view(r) == gate_conns(self@, *ctx),
    {
        let in_flight: i64 = self.conns.current(ctx.client_ip);
        let mut cap: i64 = self.runtime.max_concurrent_per_ip as i64;
        let clamp: i64 = self.uam_params().conn_cap_clamp as i64;
        if clamp > 0 && clamp < cap {
            cap = clamp;
        }
        if cap > 0 && in_flight > cap {
            let r = reason(
                "CONN-CAP",
                "ddos",
                SCORE_DENY_REPUTATION,
                cat3(dec_signed(in_flight).as_str(), " concurrent > cap ", dec_signed(cap).as_str()),
            );
            return Some(Decision::block(ctx.request_id.clone(), 429, r));
        }
        None
    }

    /// The absolute limits.
    pub fn hard_limits(&self, ctx: &RequestCtx) -> (r: Option<Decision>)
        ensures
            decision_view(r) == gate_limits(self@, *ctx),
    {
        let l = &self.cfg.limits;
        let id = ctx.request_id.clone();
        if !any_same_fold(&l.allowed_methods, ctx.method.as_str()) {
            let r = reason("METHOD-DENIED", "method", SCORE_BAD_METHOD, ctx.method.clone());
            return Some(Decision::block(id, 405, r));
        }
        let uri: usize = byte_len(ctx.uri.as_str());
        if uri > l.max_uri_bytes {
            let detail = text::cat5(
                "uri=",
                dec(uri as u64).as_str(),
                "B max=",
                dec(l.max_uri_bytes as u64).as_str(),
                "B",
            );
            return Some(Decision::block(id, 414, reason("URI-TOO-LONG", "limit", SCORE_OVERSIZE_URI, detail)));
        }
        let n: usize = ctx.headers.len();
        if n > l.max_headers {
            let detail = cat2("count=", dec(n as u64).as_str());
            return Some(Decision::block(id, 431, reason("TOO-MANY-HEADERS", "limit", SCORE_OVERSIZE_HEAD, detail)));
        }
        let long: usize = find_long(&ctx.headers, l.max_header_value_bytes);
        if long < n {
            let size: usize = byte_len(ctx.headers.entry(long).1.as_str());
            let detail = cat3("len=", dec(size as u64).as_str(), "B");
            return Some(Decision::block(id, 431, reason("HEADER-TOO-LONG", "limit", SCORE_OVERSIZE_HEAD, detail)));
        }
        if let Some(cl) = ctx.content_length {
            if cl > l.max_body_bytes as u64 {
                let detail = text::cat5(
                    "len=",
                    dec(cl).as_str(),
                    "B max=",
                    dec(l.max_body_bytes as u64).as_str(),
                    "B",
                );
                return Some(
                    Decision::block(id, 413, reason("BODY-TOO-LARGE", "limit", SCORE_OVERSIZE_BODY, detail)),
                );
            }
        }
        None
    }

    fn rate_gate(&mut self, ctx: &RequestCtx, now_s: u64) -> (r: Option<Decision>)
        requires
            old(self).wf(),
        ensures
            final(self).wf(),
            untouched(*old(self), *final(self)),
            decision_view(r) == gate_rate(old(self)@, *ctx, now_s),
            final(self)@ == after_rate(old(self)@, *ctx, now_s),
    {
        if !self.runtime.rules.rate_limit {
            return None;
        }
        let bps: u32 = self.uam_params().rpm_scale_bps;
        let scale: u32 = if bps < 10_000 {
            bps
        } else if self.runtime.under_attack {
            self.runtime.rpm_under_attack_bps
        } else {
            10_000
        };
        match self.rate_limiter.check_scaled_at(now_s, ctx.client_ip, ctx.path.as_str(), scale) {
            Ok(_) => {
                assert(self@ =~= after_rate(old(self)@, *ctx, now_s));
                None
            },
            Err(l) => {
                self.metrics.rate_limited = self.metrics.rate_limited.wrapping_add(1);
                assert(self@ =~= after_rate(old(self)@, *ctx, now_s));
                let detail = cat6(
                    "scope=",
                    l.scope,
                    " retry_after=",
                    dec(l.retry_after).as_str(),
                    "s path=",
                    l.path.as_str(),
                );
                Some(Decision::block(ctx.request_id.clone(), 429, reason("RL-01", "rate_limit", SCORE_RL_HIT, detail)))
            },
        }
    }

    fn has_clearance(&self, ctx: &RequestCtx, now_s: u64) -> (r: bool)
        ensures
            r == cleared(self@, *ctx, now_s),
    {
        match ctx.cookie(self.challenger.cookie_name()) {
            Some(v) => self.challenger.verify_clearance_at(now_s, v),
            None => false,
        }
    }

    fn has_integrity(&self, ctx: &RequestCtx, now_s: u64) -> (r: bool)
        ensures
            r == integrity_shown(self@, *ctx, now_s),
    {
        self.runtime.defenses.bic && match ctx.cookie(self.bic.cookie_name()) {
            Some(v) => self.bic.verify_cookie_at(now_s, v, ctx.client_ip),
            None => false,
        }
    }

    fn browser_gate(&mut self, ctx: &RequestCtx, now_s: u64) -> (r: Option<Decision>)
        requires
            old(self).wf(),
        ensures
            final(self).wf(),
            untouched(*old(self), *final(self)),
            decision_view(r) == gate_browser(old(self)@, *ctx, now_s),
            final(self)@ == after_browser(old(self)@, *ctx, now_s),
    {
        let id = ctx.request_id.clone();
        if self.runtime.lockdown_active() && self.runtime.defenses.browser_integrity {
            match browser_check::verify(ctx) {
                BrowserVerdict::Forged(why) => {
                    let r = reason(
                        "LOCKDOWN-FORGED",
                        "lockdown",
                        SCORE_DENY_REPUTATION,
                        cat2("forged browser fingerprint: ", why),
                    );
                    let _ = self.reputations.record_offence_at(now_s, ctx.client_ip);
                    assert(self@ =~= after_browser(old(self)@, *ctx, now_s));
                    Some(Decision::block(id, 403, r))
                },
                BrowserVerdict::Unverified => {
                    if self.has_integrity(ctx, now_s) {
                        None
                    } else {
                        let r = reason(
                            "LOCKDOWN-UNVERIFIED",
                            "lockdown",
                            100,
                            "client could not prove it is a real browser".to_string(),
                        );
                        Some(single_challenge(id, r))
                    }
                },
                BrowserVerdict::Trusted => None,
            }
        } else if self.uam_params().force_challenge {
            let r = reason(
                "UAM-FORCE",
                "anti_ddos",
                100,
                cat3("uam=", self.runtime.uam().name(), " forcing challenge"),
            );
            Some(single_challenge(id, r))
        } else {
            None
        }
    }

    /// The reason that the country of a request gives.
    pub fn geoip_reason(&self, ctx: &RequestCtx) -> (r: Option<DecisionReason>)
        ensures
            signature::reason_view(r) == geo_reason(self@, *ctx),
    {
        match &ctx.country {
            None => None,
            Some(country) => {
                let cc = to_upper(country.as_str());
                if any_same_fold(&self.runtime.blocked_countries, cc.as_str()) || any_same_fold(
                    &self.cfg.geoip.block_countries,
                    cc.as_str(),
                ) {
                    Some(reason("GEO-BLOCKED", "geoip", SCORE_GEO_BLOCKED, cat2("country=", cc.as_str())))
                } else if any_same_fold(&self.cfg.geoip.suspicious_countries, cc.as_str()) {
                    Some(reason("GEO-SUSPICIOUS", "geoip", SCORE_GEO_SUSPICIOUS, cat2("country=", cc.as_str())))
                } else {
                    None
                }
            },
        }
    }

    /// The reasons that the rules give.
    pub fn scan_rules(&self, ctx: &RequestCtx) -> (r: Vec<DecisionReason>)
        ensures
            decision::views(r@) == rule_reasons(self@, *ctx),
    {
        let mut out: Vec<DecisionReason> = Vec::new();
        assert(decision::views(out@) =~= seq![]);
        let surface = Surface::from(ctx);
        let ghost s = rules::surface_of(*ctx);
        let ghost on = self.runtime.rules;
        let ghost p = self.rule_sets@;
        if self.runtime.rules.sqli {
            push_hit(&mut out, rules::sqli::scan(&self.rule_sets.sqli, &surface), SCORE_SQLI_HIGH);
        }
        let ghost r1 = scan_reason(on.sqli, rules::sqli::scan_of(p.sqli, s), SCORE_SQLI_HIGH);
        assert(decision::views(out@) =~= r1);
        if self.runtime.rules.xss {
            push_hit(&mut out, rules::xss::scan(&self.rule_sets.xss, &surface), SCORE_XSS_HIGH);
        }
        let ghost r2 = r1 + scan_reason(on.xss, rules::xss::scan_of(p.xss, s), SCORE_XSS_HIGH);
        assert(decision::views(out@) =~= r2);
        if self.runtime.rules.traversal {
            push_hit(&mut out, rules::traversal::scan(&self.rule_sets.traversal, &surface), SCORE_TRAVERSAL);
        }
        let ghost r3 = r2 + scan_reason(on.traversal, rules::traversal::scan_of(p.traversal, s), SCORE_TRAVERSAL);
        assert(decision::views(out@) =~= r3);
        if self.runtime.rules.cmdi {
            push_hit(&mut out, rules::cmdi::scan(&self.rule_sets.cmdi, &surface), SCORE_CMDI);
        }
        let ghost r4 = r3 + scan_reason(on.cmdi, rules::cmdi::scan_of(p.cmdi, s), SCORE_CMDI);
        assert(decision::views(out@) =~= r4);
        if self.runtime.rules.lfi {
            push_hit(&mut out, rules::lfi::scan(&self.rule_sets.lfi, &surface), SCORE_LFI);
        }
        assert(decision::views(out@) =~= r4 + scan_reason(on.lfi, rules::lfi::scan_of(p.lfi, s), SCORE_LFI));
        out
    }
}

/// The view of an optional decision.
pub open spec fn decision_view(d: Option<Decision>) -> Option<DecisionView> {
    match d {
        Some(d) => Some(d@),
        None => None,
    }
}

fn single_challenge(id: String, r: DecisionReason) -> (d: Decision)
    ensures
        d@ == DecisionView::challenge(id@, 100, seq![r@]),
{
    let mut list: Vec<DecisionReason> = Vec::new();
    assert(decision::views(list@) =~= seq![]);
    let ghost v = r@;
    push_reason(&mut list, r);
    assert(decision::views(list@) =~= seq![v]);
    Decision::challenge(id, 100, list)
}

impl Engine {
    fn collect_client(
        &self,
        ctx: &RequestCtx,
        spoof: Option<DecisionReason>,
        pending: bool,
        signals: &Signals,
        now_s: u64,
    ) -> (r: Vec<DecisionReason>)
        ensures
            decision::views(r@) == client_reasons(
                self@,
                *ctx,
                signature::reason_view(spoof),
                pending,
                signals@,
                now_s,
            ),
    {
        let ghost sp = signature::reason_view(spoof);
        let mut out: Vec<DecisionReason> = Vec::new();
        assert(decision::views(out@) =~= seq![]);
        push_opt(&mut out, spoof);
        push_opt(&mut out, self.geoip_reason(ctx));
        push_all(&mut out, header_reasons(ctx));
        let ghost r1 = decision::listed(sp) + decision::listed(geo_reason(self@, *ctx)) + header_reasons_of(*ctx);
        assert(decision::views(out@) =~= r1);
        if !pending && !self.has_integrity(ctx, now_s) && self.runtime.defenses.bot_score {
            push_all(&mut out, copy_reasons(&signals.bot_reasons));
        }
        assert(decision::views(out@) =~= r1 + bot_reasons(self@, *ctx, pending, signals@, now_s));
        out
    }

    fn collect_content(&self, ctx: &RequestCtx) -> (r: Vec<DecisionReason>)
        ensures
            decision::views(r@) == ua_reason(self@, *ctx) + rule_reasons(self@, *ctx),
    {
        proof {
            reveal_strlit("");
            assert(ctx.user_agent@.len() == 0 ==> ctx.user_agent@ =~= ""@);
        }
        let ua = ctx.user_agent.as_str();
        let mut out: Vec<DecisionReason> = Vec::new();
        assert(decision::views(out@) =~= seq![]);
        push_when(
            &mut out,
            self.runtime.rules.bot_ua && !same_text(ua, "") && self.ua_scanner.is_suspicious(ua),
            reason("UA-SUSPICIOUS", "ua", SCORE_BAD_UA, excerpt(ua)),
        );
        assert(decision::views(out@) =~= ua_reason(self@, *ctx));
        push_all(&mut out, self.scan_rules(ctx));
        out
    }

    fn collect_traffic(&mut self, ctx: &RequestCtx, signals: &Signals, now_ms: u64) -> (r: Vec<DecisionReason>)
        requires
            old(self).wf(),
        ensures
            final(self).wf(),
            untouched(*old(self), *final(self)),
            final(self)@ == after_scoring(old(self)@, *ctx, now_ms),
            decision::views(r@) == traffic_reasons(old(self)@, *ctx, signals@, now_ms),
    {
        let ghost v = self@;
        let now_s: u64 = now_ms / 1000;
        let human = is_browserish(ctx);
        let ip = ctx.client_ip;
        proof {
            reveal_strlit("");
            assert(ctx.user_agent@.len() == 0 ==> ctx.user_agent@ =~= ""@);
        }
        let has_ua = !same_text(ctx.user_agent.as_str(), "");
        let mut out: Vec<DecisionReason> = Vec::new();
        assert(decision::views(out@) =~= seq![]);
        if self.runtime.defenses.behavior {
            let list = self.behavior.observe_at(
                now_ms,
                ip,
                ctx.path.as_str(),
                ctx.method.as_str(),
                ctx.user_agent.as_str(),
                human,
            );
            push_all(&mut out, list);
        }
        let ghost r3 = behavior_reasons(v, *ctx, now_ms);
        assert(decision::views(out@) =~= r3);
        if self.runtime.defenses.ddos {
            push_all(&mut out, ddos::score(ctx));
        }
        let ghost r4 = r3 + ddos_reasons(v, *ctx);
        assert(decision::views(out@) =~= r4);
        push_when(
            &mut out,
            self.runtime.datacenter_block && signals.from_datacenter,
            reason("DC-RANGE", "asn", W_DATACENTER, "source ip within hosting/cloud CIDR".to_string()),
        );
        let ghost r5 = r4 + datacenter_reason(v, signals@);
        assert(decision::views(out@) =~= r5);
        if self.runtime.defenses.subnet {
            let rpm: u32 = self.runtime.subnet_rpm;
            let conn: i64 = self.runtime.subnet_conn as i64;
            let list = self.subnets.observe_at(now_s, ip, rpm, conn);
            push_all(&mut out, list);
        }
        let ghost r6 = r5 + subnet_reasons(v, *ctx, now_s);
        assert(decision::views(out@) =~= r6);
        if self.runtime.defenses.replay && !human {
            let r = self.replay.observe_at(
                now_s,
                ip,
                ctx.method.as_str(),
                ctx.path.as_str(),
                ctx.user_agent.as_str(),
            );
            push_opt(&mut out, r);
        }
        let ghost r7 = r6 + replay_reasons(v, *ctx, now_s);
        assert(decision::views(out@) =~= r7);
        if self.runtime.defenses.dist_ua && !human && has_ua {
            let r = self.dist_ua.observe_at(now_s, ip, ctx.user_agent.as_str());
            push_opt(&mut out, r);
        }
        assert(decision::views(out@) =~= r7 + dist_reasons(v, *ctx, now_s));
        assert(self@ =~= after_scoring(v, *ctx, now_ms));
        out
    }

    /// Notes a request with everything that remembers requests, and collects the reasons that it
    /// gives.
    fn collect(
        &mut self,
        ctx: &RequestCtx,
        spoof: Option<DecisionReason>,
        pending: bool,
        signals: &Signals,
        now_ms: u64,
    ) -> (r: Vec<DecisionReason>)
        requires
            old(self).wf(),
        ensures
            final(self).wf(),
            untouched(*old(self), *final(self)),
            final(self)@ == after_scoring(old(self)@, *ctx, now_ms),
            decision::views(r@) == all_reasons(
                old(self)@,
                *ctx,
                signature::reason_view(spoof),
                pending,
                signals@,
                now_ms,
            ),
    {
        let mut out = self.collect_client(ctx, spoof, pending, signals, now_ms / 1000);
        let content = self.collect_content(ctx);
        push_all(&mut out, self.collect_traffic(ctx, signals, now_ms));
        push_all(&mut out, content);
        out
    }

    /// Holds the sum of the reasons against the thresholds.
    fn settle(&mut self, ctx: &RequestCtx, reasons: Vec<DecisionReason>, now_s: u64) -> (r: Decision)
        requires
            old(self).wf(),
        ensures
            final(self).wf(),
            untouched(*old(self), *final(self)),
            final(self)@ == after_verdict(
                old(self)@,
                *ctx,
                scored(ctx.request_id@, decision::views(reasons@)),
                now_s,
            ),
            r@ == verdict_on(old(self)@.rt, scored(ctx.request_id@, decision::views(reasons@))),
    {
        let uam = self.uam_params();
        let mut d = Decision::allow(ctx.request_id.clone());
        let ghost all = decision::views(reasons@);
        d.add_reasons(reasons);
        let ghost sc = scored(ctx.request_id@, all);
        assert(d@ == sc);
        proof {
            decision::lemma_with_reasons(DecisionView::allow(ctx.request_id@), all);
        }
        let block_t: u32 = self.runtime.block_threshold.saturating_sub(uam.block_drop);
        let chal_t: u32 = self.runtime.challenge_threshold.saturating_sub(uam.challenge_drop);
        let tarpit_t: u32 = self.runtime.tarpit_score;
        let id = ctx.request_id.clone();
        if d.score >= block_t {
            let _ = self.reputations.record_offence_at(now_s, ctx.client_ip);
            assert(self@ =~= after_verdict(old(self)@, *ctx, sc, now_s));
            if tarpit_t > 0 && d.score >= tarpit_t {
                return Decision::tarpit(id, d.score, d.reasons);
            }
            let primary = if d.reasons.len() > 0 {
                d.reasons[0].copy()
            } else {
                reason("ANOMALY", "anomaly", d.score, "score over threshold".to_string())
            };
            return Decision::block(id, 403, primary);
        }
        if d.score >= chal_t {
            return Decision::challenge(id, d.score, d.reasons);
        }
        Decision::allow(id)
    }

    /// Writes a decision down.
    fn finalize_at(&mut self, ctx: &RequestCtx, d: &Decision, now_ms: u64)
        requires
            old(self).wf(),
        ensures
            final(self).wf(),
            untouched(*old(self), *final(self)),
            final(self)@ == finalized(old(self)@, *ctx, d@, now_ms),
    {
        self.events.record_at(now_ms, ctx, d);
        match self.storage_sink.take() {
            Some(sink) => {
                let mut sink = sink;
                sink.submit(Event::of(ctx, d, now_ms, events::STORED_CHARS));
                self.storage_sink = Some(sink);
            },
            None => {},
        }
        assert(self@ =~= finalized(old(self)@, *ctx, d@, now_ms));
    }

    fn judge(
        &mut self,
        ctx: &RequestCtx,
        spoof: Option<DecisionReason>,
        pending: bool,
        signals: &Signals,
        now_ms: u64,
    ) -> (r: Decision)
        requires
            old(self).wf(),
        ensures
            final(self).wf(),
            untouched(*old(self), *final(self)),
            (final(self)@, r@) == judged(
                old(self)@,
                *ctx,
                signature::reason_view(spoof),
                pending,
                signals@,
                now_ms,
            ),
    {
        let now_s: u64 = now_ms / 1000;
        if let Some(d) = self.browser_gate(ctx, now_s) {
            return d;
        }
        assert(self@ == old(self)@);
        let reasons = self.collect(ctx, spoof, pending, signals, now_ms);
        self.settle(ctx, reasons, now_s)
    }

    fn examine(
        &mut self,
        ctx: &RequestCtx,
        spoof: Option<DecisionReason>,
        pending: bool,
        signals: &Signals,
        now_ms: u64,
    ) -> (r: Decision)
        requires
            old(self).wf(),
        ensures
            final(self).wf(),
            untouched(*old(self), *final(self)),
            (final(self)@, r@) == examined(
                old(self)@,
                *ctx,
                signature::reason_view(spoof),
                pending,
                signals@,
                now_ms,
            ),
    {
        let now_s: u64 = now_ms / 1000;
        let passed = self.has_clearance(ctx, now_s);
        if let Some(d) = self.trap_gate(ctx, now_s) {
            return d;
        }
        if let Some(d) = self.conn_gate(ctx) {
            return d;
        }
        if let Some(d) = self.hard_limits(ctx) {
            return d;
        }
        if let Some(d) = self.rate_gate(ctx, now_s) {
            return d;
        }
        if passed {
            return Decision::allow(ctx.request_id.clone());
        }
        self.judge(ctx, spoof, pending, signals, now_ms)
    }

    fn decide(&mut self, ctx: &RequestCtx, signals: &Signals, now_ms: u64) -> (r: Decision)
        requires
            old(self).wf(),
        ensures
            final(self).wf(),
            untouched(*old(self), *final(self)),
            (final(self)@, r@) == decided(old(self)@, *ctx, signals@, now_ms),
    {
        let now_s: u64 = now_ms / 1000;
        if let Some(d) = self.list_gate(ctx, now_s) {
            return d;
        }
        let verdict = self.claim_gate(ctx, now_s);
        let (spoof, pending) = match verdict {
            Verdict::GoodBotVerified(_) => {
                return Decision::allow(ctx.request_id.clone());
            },
            Verdict::GoodBotSpoofed(name) => (Some(goodbot::spoof_reason(name)), false),
            Verdict::GoodBotPending => (None, true),
            Verdict::NotABot => (None, false),
        };
        self.examine(ctx, spoof, pending, signals, now_ms)
    }

    /// Decides on a request at a given time and writes the decision down.
    pub fn evaluate_at(&mut self, ctx: &RequestCtx, signals: &Signals, now_ms: u64) -> (r: Decision)
        requires
            old(self).wf(),
        ensures
            final(self).wf(),
            untouched(*old(self), *final(self)),
            final(self)@ == after_request(old(self)@, *ctx, signals@, now_ms),
            r@ == decision_on(old(self)@, *ctx, signals@, now_ms),
    {
        let d = self.decide(ctx, signals, now_ms);
        self.finalize_at(ctx, &d, now_ms);
        d
    }

    /// Decides on a request and writes the decision down.
    pub fn evaluate(&mut self, ctx: &RequestCtx, signals: &Signals) -> (r: Decision)
        requires
            old(self).wf(),
        ensures
            final(self).wf(),
            untouched(*old(self), *final(self)),
            exists|now_ms: u64|
                final(self)@ == #[trigger] after_request(old(self)@, *ctx, signals@, now_ms) && r@ == decision_on(
                    old(self)@,
                    *ctx,
                    signals@,
                    now_ms,
                ),
    {
        self.evaluate_at(ctx, signals, now_ms())
    }
}

/// The state of an engine that was put together of a limiter, the words and the patterns.
pub open spec fn assembled(
    cfg: Config,
    token: Seq<char>,
    rate: RateView,
    words: Seq<Seq<char>>,
    patterns: PatternsView,
) -> EngineView {
    EngineView {
        cfg,
        rate,
        rep: RepView {
            allow: reputation::nets_of(cfg.reputation.allow_cidrs.deep_view()),
            deny: reputation::nets_of(cfg.reputation.deny_cidrs.deep_view()),
            threshold: cfg.reputation.auto_ban_threshold_hits,
            window: cfg.reputation.auto_ban_window_secs,
            duration: cfg.reputation.auto_ban_duration_secs,
            state: Map::empty(),
            unsaved: false,
        },
        secret: vstd::utf8::encode_utf8(cfg.challenge.hmac_secret@),
        cookie: cfg.challenge.cookie_name@,
        ttl: cfg.challenge.cookie_ttl_secs,
        difficulty: challenge::clamped_difficulty(cfg.challenge.pow_difficulty),
        bic_secret: vstd::utf8::encode_utf8(cfg.challenge.hmac_secret@),
        words,
        patterns,
        rate_limited: 0,
        rt: runtime::initial(cfg, token),
        log: LogView { events: seq![], cap: events::DEFAULT_CAP },
        conns: Map::empty(),
        behavior: BehaviorView { by_ip: Map::empty(), last_gc: 0 },
        subnets: SubnetView { counters: Map::empty(), in_flight: Map::empty(), last_gc: 0 },
        traps: text::texts(honeypots::DEFAULT_TRAPS@),
        replay: signature::no_replays(),
        dist: DistView { by_ua: Map::empty(), last_gc: 0 },
        bots: BotsView { cache: Map::empty(), waiting: seq![] },
        sink: None,
        storage_path: None,
    }
}

/// The state of a fresh engine.
pub open spec fn fresh_engine(cfg: Config, token: Seq<char>) -> EngineView {
    assembled(
        cfg,
        token,
        ratelimit::new_limiter(cfg.rate_limit),
        cfg.detection.suspicious_user_agents.deep_view(),
        rule_patterns(),
    )
}

/// The names of the rules.
pub open spec fn rule_names() -> Seq<Seq<char>> {
    seq!["sqli"@, "xss"@, "traversal"@, "cmdi"@, "lfi"@]
}

/// Whether a message says what keeps an engine from being built: a route, then a network of the
/// allow list, then one of the deny list, then the words, then a rule.
pub open spec fn build_fault(cfg: Config, message: Seq<char>) -> bool {
    let allow = cfg.reputation.allow_cidrs.deep_view();
    let deny = cfg.reputation.deny_cidrs.deep_view();
    let lists = reputation::all_nets(allow) && reputation::all_nets(deny);
    ||| exists|i: int, x: regex::Error|
        0 <= i < cfg.rate_limit.routes@.len() && message == #[trigger] ratelimit::route_error(
            cfg.rate_limit.routes@[i].pattern@,
            x,
        )
    ||| !reputation::all_nets(allow) && reputation::first_fault("allow"@, allow, message)
    ||| reputation::all_nets(allow) && !reputation::all_nets(deny) && reputation::first_fault("deny"@, deny, message)
    ||| lists && cfg.detection.suspicious_user_agents@.len() > 0 && exists|x: aho_corasick::BuildError|
        message == #[trigger] rules::ua::build_message(x)
    ||| lists && exists|i: int| 0 <= i < 5 && message == rule_fault(#[trigger] rule_names()[i])
}

/// The message for a rule whose patterns could not be compiled.
pub open spec fn rule_fault(name: Seq<char>) -> Seq<char> {
    "rules: "@ + name
}

/// Puts the compiled rules together; the first failure, in the order of the rules, stands for all.
pub fn gather_rules(
    sqli: Result<RegexSet, PatternError>,
    xss: Result<RegexSet, PatternError>,
    traversal: Result<RegexSet, PatternError>,
    cmdi: Result<RegexSet, PatternError>,
    lfi: Result<RegexSet, PatternError>,
) -> (r: Result<RuleSets, EngineError>)
    ensures
        match (sqli, xss, traversal, cmdi, lfi) {
            (Ok(a), Ok(b), Ok(c), Ok(d), Ok(e)) => r == Ok::<RuleSets, EngineError>(
                (RuleSets { sqli: a, xss: b, traversal: c, cmdi: d, lfi: e }),
            ),
            (Err(x), _, _, _, _) => r matches Err(e) && e.message@ == rule_fault(x.set@),
            (_, Err(x), _, _, _) => r matches Err(e) && e.message@ == rule_fault(x.set@),
            (_, _, Err(x), _, _) => r matches Err(e) && e.message@ == rule_fault(x.set@),
            (_, _, _, Err(x), _) => r matches Err(e) && e.message@ == rule_fault(x.set@),
            (_, _, _, _, Err(x)) => r matches Err(e) && e.message@ == rule_fault(x.set@),
        },
{
    let fault = match (sqli, xss, traversal, cmdi, lfi) {
        (Ok(sqli), Ok(xss), Ok(traversal), Ok(cmdi), Ok(lfi)) => {
            return Ok(RuleSets { sqli, xss, traversal, cmdi, lfi });
        },
        (Err(x), _, _, _, _) => x,
        (_, Err(x), _, _, _) => x,
        (_, _, Err(x), _, _) => x,
        (_, _, _, Err(x), _) => x,
        (_, _, _, _, Err(x)) => x,
    };
    Err(EngineError { message: cat2("rules: ", fault.set.as_str()) })
}

fn compile_rules() -> (r: Result<RuleSets, EngineError>)
    ensures
        r matches Ok(sets) ==> sets@ == rule_patterns(),
        r matches Err(e) ==> exists|i: int| 0 <= i < 5 && e.message@ == rule_fault(#[trigger] rule_names()[i]),
{
    let r = gather_rules(
        rules::sqli::pattern_set(),
        rules::xss::pattern_set(),
        rules::traversal::pattern_set(),
        rules::cmdi::pattern_set(),
        rules::lfi::pattern_set(),
    );
    assert(rule_names()[0] == "sqli"@ && rule_names()[1] == "xss"@ && rule_names()[2] == "traversal"@);
    assert(rule_names()[3] == "cmdi"@ && rule_names()[4] == "lfi"@);
    r
}

/// Whether an engine is the one that is put together of a limiter, the words and the patterns.
pub open spec fn is_new(
    e: Engine,
    cfg: Config,
    token: Seq<char>,
    rate: RateView,
    words: Seq<Seq<char>>,
    patterns: PatternsView,
) -> bool {
    &&& e.wf()
    &&& e@ == assembled(cfg, token, rate, words, patterns)
    &&& e.cfg == cfg
    &&& metrics::nothing_counted(e.metrics)
    &&& e.storage_path is None
    &&& e.storage_sink is None
}

impl Engine {
    /// Puts an engine together, of what the limiter, the words and the rules came to. The first
    /// fault is reported: that of the limiter, of the allow list, of the deny list, of the words
    /// and of the rules, in this order.
    pub fn assemble(
        cfg: Config,
        token: String,
        limiter: Result<RateLimiter, RateLimitError>,
        scanner: Result<UaScanner, UaError>,
        sets: Result<RuleSets, EngineError>,
    ) -> (r: Result<Engine, EngineError>)
        requires
            limiter matches Ok(l) ==> l.wf(),
        ensures
            ({
                let allow = cfg.reputation.allow_cidrs.deep_view();
                let deny = cfg.reputation.deny_cidrs.deep_view();
                if limiter is Err {
                    r matches Err(e) && e.message == limiter->Err_0.message
                } else if !reputation::all_nets(allow) {
                    r matches Err(e) && reputation::first_fault("allow"@, allow, e.message@)
                } else if !reputation::all_nets(deny) {
                    r matches Err(e) && reputation::first_fault("deny"@, deny, e.message@)
                } else if scanner is Err {
                    r matches Err(e) && e.message == scanner->Err_0.message
                } else if sets is Err {
                    r matches Err(e) && e.message == sets->Err_0.message
                } else {
                    r matches Ok(e) && is_new(
                        e,
                        cfg,
                        token@,
                        limiter->Ok_0@,
                        scanner->Ok_0.words(),
                        sets->Ok_0@,
                    )
                }
            }),
    {
        let rate_limiter = match limiter {
            Ok(x) => x,
            Err(e) => {
                return Err(EngineError { message: e.message });
            },
        };
        let reputations = match Reputations::new(&cfg.reputation) {
            Ok(x) => x,
            Err(e) => {
                return Err(EngineError { message: e.message });
            },
        };
        let ua_scanner = match scanner {
            Ok(x) => x,
            Err(e) => {
                return Err(EngineError { message: e.message });
            },
        };
        let rule_sets = match sets {
            Ok(x) => x,
            Err(e) => {
                return Err(e);
            },
        };
        let challenger = Challenger::new(
            cfg.challenge.hmac_secret.as_str(),
            cfg.challenge.cookie_name.as_str(),
            cfg.challenge.cookie_ttl_secs,
            cfg.challenge.pow_difficulty,
        );
        let bic = Bic::new(cfg.challenge.hmac_secret.as_str());
        let ghost t = token@;
        let runtime = Runtime::with_token(&cfg, token);
        let e = Engine {
            cfg,
            rate_limiter,
            reputations,
            challenger,
            ua_scanner,
            rule_sets,
            metrics: Metrics::new(),
            runtime,
            events: EventLog::default(),
            conns: ConnTracker::new(),
            behavior: BehaviorTracker::new(),
            subnets: SubnetTracker::new(),
            honeypots: Honeypots::default(),
            replay: RequestReplay::new(),
            dist_ua: DistributedUa::new(),
            goodbot: GoodBotVerifier::new(),
            bic,
            storage_sink: None,
            storage_path: None,
        };
        assert(e@ =~= assembled(cfg, t, rate_limiter@, ua_scanner.words(), rule_sets@));
        Ok(e)
    }

    /// Builds an engine with a given token for the dashboard. It fails where a list holds what is
    /// no network, or where the patterns or words cannot be compiled.
    pub fn build_with(cfg: Config, token: String) -> (r: Result<Engine, EngineError>)
        ensures
            r matches Ok(e) ==> e@ == fresh_engine(cfg, token@) && is_new(
                e,
                cfg,
                token@,
                ratelimit::new_limiter(cfg.rate_limit),
                cfg.detection.suspicious_user_agents.deep_view(),
                rule_patterns(),
            ),
            ({
                let allow = cfg.reputation.allow_cidrs.deep_view();
                let deny = cfg.reputation.deny_cidrs.deep_view();
                &&& r is Ok ==> reputation::all_nets(allow) && reputation::all_nets(deny)
                &&& cfg.rate_limit.routes@.len() == 0 && !reputation::all_nets(allow) ==> (r matches Err(e)
                    && reputation::first_fault("allow"@, allow, e.message@))
                &&& cfg.rate_limit.routes@.len() == 0 && reputation::all_nets(allow) && !reputation::all_nets(deny) ==> (
                r matches Err(e) && reputation::first_fault("deny"@, deny, e.message@))
            }),
            r matches Err(e) ==> build_fault(cfg, e.message@),
    {
        let limiter = RateLimiter::new(&cfg.rate_limit);
        let scanner = UaScanner::new(&cfg.detection.suspicious_user_agents);
        Engine::assemble(cfg, token, limiter, scanner, compile_rules())
    }

    /// Builds an engine with a new token for the dashboard. `salt` tells processes apart that
    /// start at the same time.
    pub fn build(cfg: Config, salt: &[u8]) -> (r: Result<Engine, EngineError>)
        ensures
            r matches Ok(e) ==> exists|nanos: u128|
                e@ == fresh_engine(cfg, #[trigger] runtime::token_text(nanos, salt@)) && is_new(
                    e,
                    cfg,
                    runtime::token_text(nanos, salt@),
                    ratelimit::new_limiter(cfg.rate_limit),
                    cfg.detection.suspicious_user_agents.deep_view(),
                    rule_patterns(),
                ),
            ({
                let allow = cfg.reputation.allow_cidrs.deep_view();
                let deny = cfg.reputation.deny_cidrs.deep_view();
                &&& r is Ok ==> reputation::all_nets(allow) && reputation::all_nets(deny)
                &&& cfg.rate_limit.routes@.len() == 0 && !reputation::all_nets(allow) ==> (r matches Err(e)
                    && reputation::first_fault("allow"@, allow, e.message@))
                &&& cfg.rate_limit.routes@.len() == 0 && reputation::all_nets(allow) && !reputation::all_nets(deny) ==> (
                r matches Err(e) && reputation::first_fault("deny"@, deny, e.message@))
            }),
            r matches Err(e) ==> build_fault(cfg, e.message@),
    {
        let token = runtime::generate_token(salt);
        Engine::build_with(cfg, token)
    }
}

// ---------------------------------------------------------------------------
// Laws
// ---------------------------------------------------------------------------

/// The allow lists win over everything: a client on one of them is let through, whatever the
/// request holds and whatever else is known, and nothing is counted against it.
pub proof fn lemma_allow_wins(v: EngineView, ctx: RequestCtx, sig: SignalsView, now_ms: u64)
    requires
        net::any_covers(v.rt.allow, ctx.client_ip) || net::any_covers(v.rep.allow, ctx.client_ip),
    ensures
        decision_on(v, ctx, sig, now_ms) == DecisionView::allow(ctx.request_id@),
        decided(v, ctx, sig, now_ms).0 == v,
{
}

/// A client on a deny list or under a ban, and on no allow list, is blocked.
pub proof fn lemma_deny_blocks(v: EngineView, ctx: RequestCtx, sig: SignalsView, now_ms: u64)
    requires
        !net::any_covers(v.rt.allow, ctx.client_ip),
        !net::any_covers(v.rep.allow, ctx.client_ip),
        net::any_covers(v.rt.deny, ctx.client_ip) || net::any_covers(v.rep.deny, ctx.client_ip)
            || reputation::banned_in(v.rep.state, ctx.client_ip.spec_key(), now_ms / 1000),
    ensures
        decision_on(v, ctx, sig, now_ms).action == Action::Block,
        decision_on(v, ctx, sig, now_ms).status == 403,
        decided(v, ctx, sig, now_ms).0 == v,
{
}

/// Whether a request gets as far as the look at its clearance: it is on no list, is no confirmed
/// bot, and runs into no trap and no limit.
pub open spec fn within_limits(v: EngineView, ctx: RequestCtx, now_ms: u64) -> bool {
    let now_s = now_ms / 1000;
    let w = after_bots(v, ctx, now_s);
    &&& gate_lists(v, ctx, now_s) is None
    &&& !(bot_verdict(v, ctx, now_s) is GoodBotVerified)
    &&& gate_traps(w, ctx) is None
    &&& gate_conns(w, ctx) is None
    &&& gate_limits(w, ctx) is None
    &&& gate_rate(w, ctx, now_s) is None
}

/// A client that holds a clearance passes everything behind the limits: it is let through.
pub proof fn lemma_clearance_passes(v: EngineView, ctx: RequestCtx, sig: SignalsView, now_ms: u64)
    requires
        within_limits(v, ctx, now_ms),
        cleared(v, ctx, now_ms / 1000),
    ensures
        decision_on(v, ctx, sig, now_ms) == DecisionView::allow(ctx.request_id@),
{
}

/// From the medium level on, every fresh client is challenged, unless the lockdown decides.
pub proof fn lemma_uam_challenges(v: EngineView, ctx: RequestCtx, sig: SignalsView, now_ms: u64)
    requires
        within_limits(v, ctx, now_ms),
        !cleared(v, ctx, now_ms / 1000),
        !lockdown_on(v.rt),
        effective_level(v.rt) == UamLevel::Medium || effective_level(v.rt) == UamLevel::High || effective_level(v.rt)
            == UamLevel::Extreme,
    ensures
        decision_on(v, ctx, sig, now_ms) == DecisionView::challenge(
            ctx.request_id@,
            100,
            seq![uam_force(v.rt.uam_level)],
        ),
{
}

/// The under-attack switch forces the challenge and halves the rate ceilings at least, unless the
/// low level was chosen beside it.
pub proof fn lemma_under_attack(rt: RuntimeView)
    requires
        rt.under_attack,
        runtime::level_of(rt.uam_level) != UamLevel::Low,
    ensures
        params_of(effective_level(rt)).force_challenge,
        rate_scale(rt) <= 5_000,
{
}

/// Under lockdown a forged fingerprint is blocked, and the offence counts towards a ban.
pub proof fn lemma_lockdown_blocks_forged(v: EngineView, ctx: RequestCtx, sig: SignalsView, now_ms: u64)
    requires
        within_limits(v, ctx, now_ms),
        !cleared(v, ctx, now_ms / 1000),
        lockdown_on(v.rt),
        browser_check::verdict_of(ctx) is Forged,
    ensures
        decision_on(v, ctx, sig, now_ms).action == Action::Block,
        decision_on(v, ctx, sig, now_ms).status == 403,
        decision_on(v, ctx, sig, now_ms).reasons == seq![lockdown_forged(browser_check::verdict_of(ctx)->Forged_0)],
        decided(v, ctx, sig, now_ms).0.rep == reputation::after_offence(v.rep, now_ms / 1000, ctx.client_ip),
{
}

/// Under lockdown a client that cannot be vouched for is challenged, unless it has passed the
/// silent check.
pub proof fn lemma_lockdown_challenges(v: EngineView, ctx: RequestCtx, sig: SignalsView, now_ms: u64)
    requires
        within_limits(v, ctx, now_ms),
        !cleared(v, ctx, now_ms / 1000),
        lockdown_on(v.rt),
        browser_check::verdict_of(ctx) == browser_check::VerdictView::Unverified,
        !integrity_shown(v, ctx, now_ms / 1000),
    ensures
        decision_on(v, ctx, sig, now_ms) == DecisionView::challenge(
            ctx.request_id@,
            100,
            seq![lockdown_unverified()],
        ),
{
}

/// A request that reaches the scoring is let through only with a score below the challenge
/// threshold, and blocked or held only with one at or above the block threshold.
pub proof fn lemma_thresholds(rt: RuntimeView, d: DecisionView)
    ensures
        verdict_on(rt, d).action == Action::Allow ==> d.score < block_threshold(rt) && d.score
            < challenge_threshold(rt),
        verdict_on(rt, d).action == Action::Block || verdict_on(rt, d).action == Action::Tarpit <==> d.score
            >= block_threshold(rt),
        verdict_on(rt, d).action == Action::Tarpit ==> rt.tarpit_score > 0 && d.score >= rt.tarpit_score,
        verdict_on(rt, d).request_id == d.request_id,
{
}

/// How severe an action is.
pub open spec fn severity(a: Action) -> int {
    match a {
        Action::Allow => 0,
        Action::Challenge => 1,
        Action::Block => 2,
        Action::Tarpit => 3,
    }
}

/// A higher score never brings a milder decision.
pub proof fn lemma_score_monotone(rt: RuntimeView, low: DecisionView, high: DecisionView)
    requires
        low.score <= high.score,
    ensures
        severity(verdict_on(rt, low).action) <= severity(verdict_on(rt, high).action),
{
}

/// A rule that is switched off adds nothing to the score of a request.
pub proof fn lemma_rules_switched_off(v: EngineView, ctx: RequestCtx)
    ensures
        !v.rt.rules.bot_ua ==> ua_reason(v, ctx) == Seq::<ReasonView>::empty(),
        !v.rt.rules.sqli && !v.rt.rules.xss && !v.rt.rules.traversal && !v.rt.rules.cmdi && !v.rt.rules.lfi
            ==> rule_reasons(v, ctx) == Seq::<ReasonView>::empty(),
        !v.rt.rules.rate_limit ==> forall|now_s: u64| #[trigger] gate_rate(v, ctx, now_s) is None,
{
}

/// How high a level is.
pub open spec fn height(l: UamLevel) -> int {
    match l {
        UamLevel::Off => 0,
        UamLevel::Low => 1,
        UamLevel::Medium => 2,
        UamLevel::High => 3,
        UamLevel::Extreme => 4,
    }
}

/// A higher level never loosens anything.
pub proof fn lemma_levels_tighten(a: UamLevel, b: UamLevel)
    requires
        height(a) <= height(b),
    ensures
        params_of(a).force_challenge ==> params_of(b).force_challenge,
        params_of(b).rpm_scale_bps <= params_of(a).rpm_scale_bps,
        params_of(a).challenge_drop <= params_of(b).challenge_drop,
        params_of(a).block_drop <= params_of(b).block_drop,
        params_of(a).conn_cap_clamp > 0 ==> 0 < params_of(b).conn_cap_clamp <= params_of(a).conn_cap_clamp,
{
}

/// With the same thresholds, a higher level never makes a milder decision of the same score.
pub proof fn lemma_level_monotone(a: RuntimeView, b: RuntimeView, d: DecisionView)
    requires
        height(effective_level(a)) <= height(effective_level(b)),
        a.block_threshold == b.block_threshold,
        a.challenge_threshold == b.challenge_threshold,
        a.tarpit_score == b.tarpit_score,
    ensures
        severity(verdict_on(a, d).action) <= severity(verdict_on(b, d).action),
        rate_scale(b) <= rate_scale(a),
{
    lemma_levels_tighten(effective_level(a), effective_level(b));
}

/// The difficulty of a fresh challenge is at most one step above the base and at most five.
pub proof fn lemma_difficulty(base: u8, level: UamLevel)
    ensures
        difficulty_for(base, level) <= base + 1,
        difficulty_for(base, level) <= 5,
        1 <= base <= 5 ==> difficulty_for(base, level) >= base,
{
}

/// Every decision is written down: it is the newest event of a log that has room at all.
pub proof fn lemma_logged(v: EngineView, ctx: RequestCtx, sig: SignalsView, now_ms: u64)
    requires
        v.log.cap > 0,
    ensures
        after_request(v, ctx, sig, now_ms).log.events.last() == events::event_of(
            ctx,
            decision_on(v, ctx, sig, now_ms),
            now_ms,
            events::LOG_UA_CHARS as nat,
        ),
{
    lemma_frame(v, ctx, sig, now_ms);
}

/// What a decision leaves alone: the configuration and the run-time settings, the traps, the
/// lists, the patterns, the secret, the counts of requests in flight and what was written down.
pub open spec fn same_settings(v: EngineView, w: EngineView) -> bool {
    &&& w.cfg == v.cfg
    &&& w.rt == v.rt
    &&& w.conns == v.conns
    &&& w.traps == v.traps
    &&& w.patterns == v.patterns
    &&& w.words == v.words
    &&& w.log == v.log
    &&& w.sink == v.sink
    &&& w.secret == v.secret
    &&& w.rep.allow == v.rep.allow
    &&& w.rep.deny == v.rep.deny
}

proof fn lemma_judged_frame(
    v: EngineView,
    ctx: RequestCtx,
    spoof: Option<ReasonView>,
    pending: bool,
    sig: SignalsView,
    now_ms: u64,
)
    ensures
        same_settings(v, judged(v, ctx, spoof, pending, sig, now_ms).0),
        judged(v, ctx, spoof, pending, sig, now_ms).1.request_id == ctx.request_id@,
{
    let reasons = all_reasons(v, ctx, spoof, pending, sig, now_ms);
    decision::lemma_with_reasons(DecisionView::allow(ctx.request_id@), reasons);
}

proof fn lemma_examined_frame(
    v: EngineView,
    ctx: RequestCtx,
    spoof: Option<ReasonView>,
    pending: bool,
    sig: SignalsView,
    now_ms: u64,
)
    ensures
        same_settings(v, examined(v, ctx, spoof, pending, sig, now_ms).0),
        examined(v, ctx, spoof, pending, sig, now_ms).1.request_id == ctx.request_id@,
{
    lemma_judged_frame(after_rate(v, ctx, now_ms / 1000), ctx, spoof, pending, sig, now_ms);
}

/// A decision changes neither the configuration and the run-time settings nor the traps and the
/// counts of requests in flight, and carries the id of its request.
pub proof fn lemma_frame(v: EngineView, ctx: RequestCtx, sig: SignalsView, now_ms: u64)
    ensures
        same_settings(v, decided(v, ctx, sig, now_ms).0),
        decision_on(v, ctx, sig, now_ms).request_id == ctx.request_id@,
{
    let verdict = bot_verdict(v, ctx, now_ms / 1000);
    let w = after_bots(v, ctx, now_ms / 1000);
    lemma_examined_frame(w, ctx, spoof_of(verdict), verdict is GoodBotPending, sig, now_ms);
}

/// A path into a trap bans the address: the next request of it is denied, for as long as a ban
/// lasts.
pub proof fn lemma_trap_bans(v: EngineView, ctx: RequestCtx, sig: SignalsView, now_ms: u64, later: u64)
    requires
        gate_lists(v, ctx, now_ms / 1000) is None,
        !(bot_verdict(v, ctx, now_ms / 1000) is GoodBotVerified),
        v.rt.defenses.honeypots,
        honeypots::trapped(v.traps, ctx.path@),
        later < challenge::later(now_ms / 1000, v.cfg.reputation.auto_ban_duration_secs),
    ensures
        decision_on(v, ctx, sig, now_ms).action == Action::Block,
        decision_on(v, ctx, sig, now_ms).status == 403,
        reputation::standing(after_request(v, ctx, sig, now_ms).rep, later, ctx.client_ip) == Reputation::Deny,
{
}

} // verus!
