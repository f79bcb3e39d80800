//! The engine as a whole.

use waf_core::config::{
    default_auto_ban_duration, default_auto_ban_hits, default_auto_ban_window, default_connect_timeout,
    default_cookie_name, default_cookie_ttl, default_pow_difficulty, default_read_timeout, AdminCfg, ChallengeCfg,
    Config, DetectionCfg, GeoIpCfg, LimitsCfg, LoggingCfg, RateLimitCfg, ReputationCfg, RouteRateLimit, ServerCfg,
    UpstreamCfg,
};
use waf_core::decision::{Action, Decision, DecisionReason};
use waf_core::engine::{gather_rules, Engine, Signals};
use waf_core::events::{redact, EventLog};
use waf_core::net::IpAddr;
use waf_core::ratelimit::{RateLimitError, RateLimiter};
use waf_core::request::{RequestCtx, TextMap};
use waf_core::rules::ua::{UaError, UaScanner};
use waf_core::rules::PatternError;
use waf_core::runtime::UamLevel;
use waf_core::storage::{
    action_name, fold_series, query_limit, writer_step, Sink, TimeBucket, WriterAction, WriterEvent, KEEP_MS,
};

fn cfg() -> Config {
    Config {
        server: ServerCfg {
            listen: "0.0.0.0:8080".into(),
            listen_tls: "".into(),
            tls_cert: "".into(),
            tls_key: "".into(),
            redirect_to_https_port: 0,
            threads: 0,
            trusted_proxy_hops: 0,
        },
        upstream: UpstreamCfg {
            address: "127.0.0.1:8000".into(),
            sni: "".into(),
            tls: false,
            connect_timeout_ms: default_connect_timeout(),
            read_timeout_ms: default_read_timeout(),
        },
        limits: LimitsCfg {
            max_body_bytes: 1024,
            max_headers: 100,
            max_header_value_bytes: 8192,
            max_uri_bytes: 8192,
            allowed_methods: vec!["GET".into(), "POST".into()],
        },
        rate_limit: RateLimitCfg { enabled: false, requests_per_minute: 9999, burst: 0, routes: vec![] },
        reputation: ReputationCfg {
            allow_cidrs: vec![],
            deny_cidrs: vec![],
            auto_ban_threshold_hits: default_auto_ban_hits(),
            auto_ban_window_secs: default_auto_ban_window(),
            auto_ban_duration_secs: default_auto_ban_duration(),
        },
        geoip: GeoIpCfg::default(),
        detection: DetectionCfg {
            challenge_threshold: 40,
            block_threshold: 70,
            sqli: true,
            xss: true,
            traversal: true,
            cmdi: true,
            lfi: true,
            suspicious_user_agents: vec!["sqlmap".into()],
        },
        challenge: ChallengeCfg {
            hmac_secret: "a-very-secret-key-of-some-length".into(),
            cookie_name: default_cookie_name(),
            cookie_ttl_secs: default_cookie_ttl(),
            pow_difficulty: default_pow_difficulty(),
        },
        logging: LoggingCfg::default(),
        admin: AdminCfg::default(),
    }
}

fn req(uri: &str, query: &str) -> RequestCtx {
    let mut h = TextMap::new();
    h.insert("host".into(), "h".into());
    h.insert("user-agent".into(), "Mozilla/5.0".into());
    h.insert("accept".into(), "*/*".into());
    RequestCtx {
        request_id: "t".into(),
        client_ip: IpAddr::v4(1, 2, 3, 4),
        method: "GET".into(),
        uri: uri.into(),
        path: uri.split('?').next().unwrap().into(),
        query: query.into(),
        host: "h".into(),
        user_agent: "Mozilla/5.0".into(),
        http_version: "HTTP/1.1".into(),
        headers: h,
        header_order: vec!["host".into(), "user-agent".into(), "accept".into()],
        cookie_order: vec![],
        cookies: TextMap::new(),
        body_preview: vec![],
        content_length: None,
        country: None,
        ja4h: String::new(),
        ja3: String::new(),
        ja4: String::new(),
    }
}

fn req_h(uri: &str, ua: &str, ver: &str, headers: &[(&str, &str)]) -> RequestCtx {
    let mut r = req(uri, "");
    let mut h = TextMap::new();
    h.insert("host".into(), "h".into());
    if !ua.is_empty() {
        h.insert("user-agent".into(), ua.into());
    }
    let mut order: Vec<String> = vec!["host".into(), "user-agent".into()];
    for (k, v) in headers {
        h.insert(k.to_string(), v.to_string());
        order.push(k.to_string());
    }
    r.user_agent = ua.into();
    r.http_version = ver.into();
    r.headers = h;
    r.header_order = order;
    r
}

const CHROME_UA: &str = "Mozilla/5.0 (Windows NT 10.0; Win64; x64) AppleWebKit/537.36 (KHTML, like Gecko) Chrome/123.0.0.0 Safari/537.36";

fn quiet_engine() -> Engine {
    let mut e = Engine::build(cfg(), b"salt").unwrap();
    e.runtime.defenses.bot_score = false;
    e.runtime.defenses.behavior = false;
    e.runtime.defenses.ddos = false;
    e
}

fn decide(e: &mut Engine, r: &RequestCtx) -> Decision {
    e.evaluate(r, &Signals::none())
}

fn first_rule(d: &Decision) -> Option<&str> {
    d.reasons.first().map(|r| r.rule_id.as_str())
}

#[test]
fn engine_benign_passes() {
    let mut e = quiet_engine();
    let d = decide(&mut e, &req("/x", ""));
    assert_eq!(d.action, Action::Allow);
}

#[test]
fn sqli_blocks() {
    let mut e = quiet_engine();
    let d = decide(&mut e, &req("/x?id=1' OR 1=1--", "id=1' OR 1=1--"));
    assert_eq!(d.action, Action::Block);
}

#[test]
fn under_attack_forces_challenge() {
    let mut e = quiet_engine();
    e.runtime.under_attack = true;
    let d = decide(&mut e, &req("/x", ""));
    assert_eq!(d.action, Action::Challenge);
}

#[test]
fn uam_medium_forces_challenge() {
    let mut e = quiet_engine();
    e.runtime.uam_level = 2;
    let d = decide(&mut e, &req("/x", ""));
    assert_eq!(d.action, Action::Challenge);
    assert_eq!(d.reasons.first().map(|r| r.rule_id.as_str()), Some("UAM-FORCE"));
}

#[test]
fn runtime_deny_blocks() {
    let mut e = quiet_engine();
    e.runtime.add_deny("1.2.3.4").unwrap();
    let d = decide(&mut e, &req("/x", ""));
    assert_eq!(d.action, Action::Block);
}

#[test]
fn runtime_allow_overrides_rule() {
    let mut e = quiet_engine();
    e.runtime.add_allow("1.2.3.4").unwrap();
    let d = decide(&mut e, &req("/x?id=1' OR 1=1--", "id=1' OR 1=1--"));
    assert_eq!(d.action, Action::Allow);
}

#[test]
fn lockdown_blocks_forged_browser() {
    let mut e = quiet_engine();
    e.runtime.lockdown = true;
    let d = decide(&mut e, &req_h("/x", CHROME_UA, "HTTP/2.0", &[("accept", "*/*")]));
    assert_eq!(d.action, Action::Block);
    assert_eq!(d.status, 403);
    assert_eq!(d.reasons.first().map(|r| r.rule_id.as_str()), Some("LOCKDOWN-FORGED"));
}

#[test]
fn lockdown_challenges_unverified() {
    let mut e = quiet_engine();
    e.runtime.lockdown = true;
    let d = decide(&mut e, &req("/x", ""));
    assert_eq!(d.action, Action::Challenge);
    assert_eq!(d.reasons.first().map(|r| r.rule_id.as_str()), Some("LOCKDOWN-UNVERIFIED"));
}

#[test]
fn lockdown_allows_trusted_browser() {
    let mut e = quiet_engine();
    e.runtime.lockdown = true;
    let d = decide(
        &mut e,
        &req_h(
            "/x",
            CHROME_UA,
            "HTTP/2.0",
            &[
                ("accept", "text/html,application/xhtml+xml,*/*;q=0.8"),
                ("accept-language", "en-US,en;q=0.9"),
                ("accept-encoding", "gzip, deflate, br"),
                ("sec-fetch-dest", "document"),
                ("sec-fetch-mode", "navigate"),
                ("sec-ch-ua", "\"Chromium\";v=\"123\", \"Not?A_Brand\";v=\"24\""),
                ("sec-ch-ua-mobile", "?0"),
            ],
        ),
    );
    assert_eq!(d.action, Action::Allow);
}

#[test]
fn auto_lockdown_engages_at_high_uam_when_enabled() {
    let mut e = quiet_engine();
    assert!(!e.runtime.lockdown_active());
    e.runtime.uam_level = 3;
    assert!(!e.runtime.lockdown_active(), "UAM alone must not engage lockdown");
    e.runtime.auto_lockdown = true;
    assert!(e.runtime.lockdown_active());
    let d = decide(&mut e, &req_h("/x", CHROME_UA, "HTTP/2.0", &[("accept", "*/*")]));
    assert_eq!(d.action, Action::Block);
    assert_eq!(d.reasons.first().map(|r| r.rule_id.as_str()), Some("LOCKDOWN-FORGED"));
}

#[test]
fn the_first_steps_of_the_readme() {
    let mut e = quiet_engine();
    let d = decide(&mut e, &req("/x?id=1' OR 1=1--", "id=1' OR 1=1--"));
    assert_eq!((d.status, first_rule(&d)), (403, Some("SQLI-01")));
    assert_eq!(d.reasons[0].detail, "field=query excerpt=\"id=1' OR 1=1--\"");
    let d = decide(&mut e, &req("/a/../etc/passwd", ""));
    assert_eq!(d.status, 403);
    let mut r = req("/", "");
    r.user_agent = "sqlmap/1.6".into();
    let d = decide(&mut e, &r);
    assert_eq!(d.action, Action::Challenge);
    assert_eq!(first_rule(&d), Some("UA-SUSPICIOUS"));
    let mut r = req("/", "");
    r.method = "TRACE".into();
    let d = decide(&mut e, &r);
    assert_eq!((d.status, first_rule(&d)), (405, Some("METHOD-DENIED")));
}

#[test]
fn hard_limits_have_their_status() {
    let e = quiet_engine();
    assert!(e.hard_limits(&req("/", "")).is_none());
    let long = format!("/{}", "x".repeat(9000));
    let d = e.hard_limits(&req(&long, "")).unwrap();
    assert_eq!((d.status, first_rule(&d)), (414, Some("URI-TOO-LONG")));
    let mut r = req("/", "");
    r.headers.insert("x".into(), "y".repeat(9000));
    let d = e.hard_limits(&r).unwrap();
    assert_eq!((d.status, first_rule(&d)), (431, Some("HEADER-TOO-LONG")));
    let mut r = req("/", "");
    for i in 0..200 {
        r.headers.insert(format!("h{i}"), "v".into());
    }
    let d = e.hard_limits(&r).unwrap();
    assert_eq!((d.status, first_rule(&d)), (431, Some("TOO-MANY-HEADERS")));
    let mut r = req("/", "");
    r.content_length = Some(1025);
    let d = e.hard_limits(&r).unwrap();
    assert_eq!((d.status, first_rule(&d)), (413, Some("BODY-TOO-LARGE")));
    assert_eq!(d.reasons[0].detail, "len=1025B max=1024B");
    r.content_length = Some(1024);
    assert!(e.hard_limits(&r).is_none());
}

#[test]
fn a_clearance_skips_the_rules() {
    let mut e = quiet_engine();
    e.runtime.uam_level = 4;
    let mut r = req("/x?id=1' OR 1=1--", "id=1' OR 1=1--");
    let value = e.challenger.mint_clearance_at(1000);
    let name = e.challenger.cookie_name().to_string();
    r.cookies.insert(name, value);
    let d = e.evaluate_at(&r, &Signals::none(), 1_500_000);
    assert_eq!(d.action, Action::Allow);
    let d = e.evaluate_at(&r, &Signals::none(), 2_800_000);
    assert_eq!(d.action, Action::Challenge);
}

#[test]
fn a_trap_bans() {
    let mut e = quiet_engine();
    let d = e.evaluate_at(&req("/.env", ""), &Signals::none(), 1_000_000);
    assert_eq!((d.action, d.status), (Action::Block, 403));
    let d = e.evaluate_at(&req("/x", ""), &Signals::none(), 1_001_000);
    assert_eq!((d.action, d.status), (Action::Block, 403));
    assert_eq!(first_rule(&d), Some("REP-DENY"));
    let d = e.evaluate_at(&req("/x", ""), &Signals::none(), 1_000_000 + 3_600_000);
    assert_eq!(d.action, Action::Allow);
}

#[test]
fn repeated_offences_ban() {
    let mut e = quiet_engine();
    let bad = req("/x?id=1' OR 1=1--", "id=1' OR 1=1--");
    for i in 0..5 {
        let d = e.evaluate_at(&bad, &Signals::none(), 1_000_000 + i);
        assert_eq!(first_rule(&d), Some("SQLI-01"));
    }
    let d = e.evaluate_at(&req("/x", ""), &Signals::none(), 1_001_000);
    assert_eq!(first_rule(&d), Some("REP-DENY"));
}

#[test]
fn connections_are_capped() {
    let mut e = quiet_engine();
    e.runtime.max_concurrent_per_ip = 2;
    for _ in 0..3 {
        e.conns.inc(IpAddr::v4(1, 2, 3, 4));
    }
    let d = decide(&mut e, &req("/x", ""));
    assert_eq!(d.action, Action::Block);
    assert_eq!(d.status, 429);
}

#[test]
fn rates_are_limited() {
    let mut c = cfg();
    c.rate_limit.enabled = true;
    c.rate_limit.requests_per_minute = 3;
    let mut e = Engine::build(c, b"salt").unwrap();
    for _ in 0..3 {
        let d = e.evaluate_at(&req("/x", ""), &Signals::none(), 1_000_000);
        assert_ne!(first_rule(&d), Some("RL-01"));
    }
    let d = e.evaluate_at(&req("/x", ""), &Signals::none(), 1_000_000);
    assert_eq!((d.status, first_rule(&d)), (429, Some("RL-01")));
    assert_eq!(e.metrics.rate_limited, 1);
}

#[test]
fn countries_and_networks_count() {
    let mut e = quiet_engine();
    e.runtime.blocked_countries = vec!["XX".into()];
    let mut r = req("/x", "");
    r.country = Some("xx".into());
    let d = decide(&mut e, &r);
    assert_eq!((d.action, first_rule(&d)), (Action::Block, Some("GEO-BLOCKED")));
    let mut e = quiet_engine();
    e.runtime.datacenter_block = true;
    e.runtime.defenses.bot_score = true;
    let s = Signals {
        bot_reasons: vec![DecisionReason {
            rule_id: "BOT-1".into(),
            category: "bot".into(),
            score: 40,
            detail: "".into(),
        }],
        from_datacenter: true,
    };
    let d = e.evaluate(&req("/x", ""), &s);
    assert_ne!(d.action, Action::Allow);
    assert!(d.reasons.iter().any(|r| r.rule_id == "BOT-1"));
    assert!(d.reasons.iter().any(|r| r.rule_id == "DC-RANGE"));
}

#[test]
fn rules_can_be_switched_off() {
    let mut e = quiet_engine();
    let bad = req("/x?id=1' OR 1=1--", "id=1' OR 1=1--");
    e.runtime.rules.sqli = false;
    assert!(e.scan_rules(&bad).is_empty());
    assert_eq!(decide(&mut e, &bad).action, Action::Allow);
    e.runtime.rules.sqli = true;
    assert_eq!(e.scan_rules(&bad).len(), 1);
}

#[test]
fn a_higher_level_is_never_milder() {
    let mut ua = req("/x", "");
    ua.user_agent = "sqlmap".into();
    let mut e = quiet_engine();
    e.runtime.block_threshold = 64;
    assert_eq!(decide(&mut e, &ua).action, Action::Challenge);
    e.runtime.uam_level = 1;
    assert_eq!(decide(&mut e, &ua).action, Action::Block);
}

#[test]
fn a_high_score_can_be_held() {
    let mut e = quiet_engine();
    e.runtime.tarpit_score = 80;
    let d = decide(&mut e, &req("/x?id=1' OR 1=1--", "id=1' OR 1=1--"));
    assert_eq!(d.action, Action::Tarpit);
}

#[test]
fn a_decision_leaves_the_settings_alone() {
    let mut e = quiet_engine();
    e.conns.inc(IpAddr::v4(1, 2, 3, 4));
    let before = format!("{:?}", e.runtime);
    decide(&mut e, &req("/.env", ""));
    decide(&mut e, &req("/x", ""));
    assert_eq!(format!("{:?}", e.runtime), before);
    assert_eq!(e.conns.total(), 1);
}

#[test]
fn verified_bots_pass() {
    let mut e = quiet_engine();
    e.runtime.uam_level = 4;
    let mut r = req("/x", "");
    r.user_agent = "Googlebot/2.1".into();
    assert_eq!(e.evaluate_at(&r, &Signals::none(), 1_000_000).action, Action::Challenge);
    let l = e.goodbot.take_lookups()[0];
    e.goodbot.complete_at(1000, l, Some((true, "x.googlebot.com".into())));
    assert_eq!(e.evaluate_at(&r, &Signals::none(), 1_001_000).action, Action::Allow);
    let mut e = quiet_engine();
    e.evaluate_at(&r, &Signals::none(), 1_000_000);
    let l = e.goodbot.take_lookups()[0];
    e.goodbot.complete_at(1000, l, Some((false, "".into())));
    let d = e.evaluate_at(&r, &Signals::none(), 1_001_000);
    assert_eq!((d.action, d.score), (Action::Challenge, 60));
}

#[test]
fn smuggling_is_noticed() {
    let mut e = quiet_engine();
    let mut r = req("/x", "");
    r.headers.insert("content-length".into(), "5".into());
    r.headers.insert("transfer-encoding".into(), "Chunked".into());
    r.host = "".into();
    let d = decide(&mut e, &r);
    assert!(d.reasons.iter().any(|r| r.rule_id == "HDR-NO-HOST"));
    assert_eq!(d.action, Action::Block);
}

#[test]
fn levels_tighten() {
    let mut e = quiet_engine();
    assert!(!e.uam_params().force_challenge);
    assert_eq!(e.pow_difficulty_for_uam(), e.challenger.base_difficulty());
    e.runtime.uam_level = 4;
    let p = e.uam_params();
    assert!(p.force_challenge);
    assert_eq!((p.rpm_scale_bps, p.challenge_drop, p.block_drop, p.conn_cap_clamp), (1_000, 20, 20, 25));
    assert_eq!(e.pow_difficulty_for_uam(), e.challenger.base_difficulty() + 1);
    assert_eq!(UamLevel::from_u8(3).name(), "High");
    assert_eq!(UamLevel::from_u8(9), UamLevel::Off);
}

#[test]
fn every_decision_is_written_down() {
    let mut e = quiet_engine();
    e.attach_storage(Sink::new());
    e.evaluate_at(&req("/a", ""), &Signals::none(), 1_000_000);
    e.evaluate_at(&req("/x?id=1' OR 1=1--", "id=1' OR 1=1--"), &Signals::none(), 1_000_500);
    let evs = e.events.recent(10);
    assert_eq!(evs.len(), 2);
    assert_eq!((evs[0].path.as_str(), evs[0].action, evs[0].ts_ms), ("/x", Action::Block, 1_000_500));
    assert_eq!(evs[0].rule_id.as_deref(), Some("SQLI-01"));
    assert_eq!(evs[1].action, Action::Allow);
    assert_eq!(e.events.since(1_000_000, 10).len(), 1);
    let out = e.storage_sink.as_mut().unwrap().take_outbox();
    assert_eq!(out.len(), 2);
    assert_eq!(out[0].headers.len(), 3);
    assert!(e.storage_path().is_none());
    e.set_storage_path("/tmp/x.db".into());
    assert_eq!(e.runtime_state_db_path().as_deref(), Some("/tmp/x.db"));
}

#[test]
fn a_log_without_room_stays_empty() {
    let mut log = EventLog::with_capacity(0);
    for i in 0..3u64 {
        log.record_at(i, &req("/a", ""), &Decision::allow("t".into()));
    }
    assert!(log.recent(10).is_empty());
}

#[test]
fn a_log_is_bounded_and_keeps_secrets() {
    let mut log = EventLog::with_capacity(2);
    let d = Decision::allow("t".into());
    for i in 0..5u64 {
        log.record_at(i, &req("/a", ""), &d);
    }
    let evs = log.recent(10);
    assert_eq!(evs.iter().map(|e| e.ts_ms).collect::<Vec<u64>>(), vec![4, 3]);
    let mut r = req("/a", "");
    r.headers.insert("authorization".into(), "Bearer x".into());
    r.header_order.push("authorization".into());
    log.record_at(9, &r, &d);
    let stored = &log.recent(1)[0].headers;
    assert_eq!(stored[3], ("authorization".to_string(), "•••".to_string()));
    assert_eq!(redact("cookie", "secret"), "•••");
    assert_eq!(redact("accept", "*/*"), "*/*");
}

#[test]
fn capacity_is_a_ceiling() {
    let mut e = quiet_engine();
    e.runtime.global_inflight_cap = 2;
    e.conns.inc(IpAddr::v4(1, 1, 1, 1));
    assert!(!e.at_capacity());
    e.conns.inc(IpAddr::v4(2, 2, 2, 2));
    assert!(e.at_capacity());
    e.runtime.global_inflight_cap = 0;
    assert!(!e.at_capacity());
}

#[test]
fn an_engine_needs_lists_and_patterns() {
    let mut c = cfg();
    c.reputation.deny_cidrs.push("nonsense".into());
    let e = Engine::build(c, b"salt").err().unwrap();
    assert_eq!(e.message, "deny nonsense: invalid IP address syntax");
    let mut c = cfg();
    c.rate_limit.routes.push(RouteRateLimit { pattern: "(".into(), requests_per_minute: 1, burst: 0 });
    c.reputation.allow_cidrs.push("nonsense".into());
    let e = Engine::build(c, b"salt").err().unwrap();
    assert!(e.message.starts_with("rate_limit.routes pattern \"(\": "));
    let mut c = cfg();
    c.reputation.allow_cidrs.push("nowhere".into());
    c.reputation.deny_cidrs.push("nonsense".into());
    assert_eq!(Engine::build(c, b"salt").err().unwrap().message, "allow nowhere: invalid IP address syntax");
}

fn fault(set: &str) -> PatternError {
    PatternError { set: set.into() }
}

#[test]
fn the_first_fault_is_reported() {
    let set = || regex::RegexSet::new(["x"]).map_err(|_| fault("none"));
    let sets = gather_rules(set(), Err(fault("xss")), set(), Err(fault("cmdi")), set());
    assert_eq!(sets.err().unwrap().message, "rules: xss");
    let sets = || gather_rules(set(), set(), set(), set(), set());
    let limiter = || RateLimiter::new(&cfg().rate_limit);
    let scanner = || UaScanner::new(&vec!["bot".to_string()]);
    let e = Engine::assemble(cfg(), "t".into(), limiter(), scanner(), sets()).unwrap();
    assert_eq!(e.runtime.auth_token, "t");
    assert!(e.ua_scanner.is_suspicious("a BOT"));
    let bad_words = || Err(UaError { message: "words".into() });
    let bad_sets = || gather_rules(Err(fault("sqli")), set(), set(), set(), set());
    let e = Engine::assemble(cfg(), "t".into(), limiter(), bad_words(), bad_sets()).err().unwrap();
    assert_eq!(e.message, "words");
    let e = Engine::assemble(cfg(), "t".into(), limiter(), scanner(), bad_sets()).err().unwrap();
    assert_eq!(e.message, "rules: sqli");
    let mut c = cfg();
    c.reputation.deny_cidrs.push("nonsense".into());
    let e = Engine::assemble(c, "t".into(), limiter(), bad_words(), bad_sets()).err().unwrap();
    assert_eq!(e.message, "deny nonsense: invalid IP address syntax");
    let c = cfg();
    let broken = Err(RateLimitError { message: "limits".into() });
    assert_eq!(Engine::assemble(c, "t".into(), broken, bad_words(), bad_sets()).err().unwrap().message, "limits");
}

#[test]
fn a_configuration_is_validated() {
    assert!(cfg().validate().is_ok());
    let mut c = cfg();
    c.challenge.hmac_secret = "short".into();
    assert!(c.validate().is_err());
    let mut c = cfg();
    c.detection.challenge_threshold = 90;
    assert!(c.validate().is_err());
}

#[test]
fn settings_survive_a_restart() {
    let mut a = quiet_engine();
    a.runtime.add_deny("10.0.0.0/8").unwrap();
    a.runtime.add_allow("2001:db8::/32").unwrap();
    a.runtime.uam_level = 3;
    a.runtime.blocked_countries = vec!["DE".into()];
    a.runtime.rules.xss = false;
    assert!(a.runtime.take_unsaved());
    assert!(!a.runtime.take_unsaved());
    let stored = a.runtime.snapshot();
    let mut b = quiet_engine();
    b.runtime.apply_persisted(&stored);
    assert_eq!(b.runtime.uam_level, 3);
    assert_eq!(b.runtime.deny, a.runtime.deny);
    assert_eq!(b.runtime.allow, a.runtime.allow);
    assert_eq!(b.runtime.blocked_countries, vec!["DE".to_string()]);
    assert!(!b.runtime.rules.xss);
    assert_eq!(b.runtime.auth_token, a.runtime.auth_token);
    assert!(b.runtime.remove_deny("10.0.0.0/8").is_ok());
    assert!(b.runtime.deny.is_empty());
    assert_eq!(b.runtime.add_deny("x").err().unwrap().message, "x: invalid IP address syntax");
}

#[test]
fn the_writer_writes_in_batches() {
    assert_eq!(writer_step(WriterEvent::Received, 511, 0), WriterAction::Wait);
    assert_eq!(writer_step(WriterEvent::Received, 512, 0), WriterAction::Flush);
    assert_eq!(writer_step(WriterEvent::FlushTick, 0, 0), WriterAction::Wait);
    assert_eq!(writer_step(WriterEvent::FlushTick, 1, 0), WriterAction::Flush);
    assert_eq!(writer_step(WriterEvent::RetentionTick, 0, KEEP_MS + 5), WriterAction::Sweep(5));
    assert_eq!(writer_step(WriterEvent::Closed, 0, 0), WriterAction::Stop);
    assert_eq!(writer_step(WriterEvent::Closed, 2, 0), WriterAction::FlushAndStop);
    assert_eq!(query_limit(9999), 5000);
    assert_eq!(action_name(Action::Tarpit), "tarpit");
}

#[test]
fn a_chart_has_one_bucket_per_second() {
    let rows = vec![
        (5, "allow".to_string(), 2),
        (5, "block".to_string(), 1),
        (5, "unknown".to_string(), 9),
        (7, "tarpit".to_string(), 3),
    ];
    assert_eq!(
        fold_series(&rows),
        vec![
            TimeBucket { sec: 5, allowed: 2, challenged: 0, blocked: 1, tarpit: 0 },
            TimeBucket { sec: 7, allowed: 0, challenged: 0, blocked: 0, tarpit: 3 },
        ]
    );
}

#[test]
fn a_full_queue_drops() {
    let mut e = quiet_engine();
    e.attach_storage(Sink::new());
    e.evaluate_at(&req("/a", ""), &Signals::none(), 1_000_000);
    let sink = e.storage_sink.as_mut().unwrap();
    assert_eq!((sink.stats().written, sink.stats().dropped), (0, 0));
    let out = sink.take_outbox();
    for _ in 0..16_385 {
        sink.submit(out[0].copy());
    }
    assert_eq!(sink.stats().dropped, 1);
    sink.note_flushed(10);
    assert_eq!(sink.stats().written, 10);
}
