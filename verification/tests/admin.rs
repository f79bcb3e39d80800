//! The server of the dashboard.

use waf_core::admin::{
    apply_patch, auth_ok, bad_request, endpoint, head_of, head_step, healthy, list_events, parse_head, parse_query,
    parse_range, range_events, report, route_api, route_api_at, stream_step, sweep_at, timeframe_at, ApiReply,
    AutoUam, Endpoint, HeadStep, ParsedReq, RuntimePatch, TextReply, Timeframe,
};
use waf_core::config::{
    default_auto_ban_duration, default_auto_ban_hits, default_auto_ban_window, default_connect_timeout,
    default_cookie_name, default_cookie_ttl, default_pow_difficulty, default_read_timeout, AdminCfg, ChallengeCfg,
    Config, DetectionCfg, GeoIpCfg, LimitsCfg, LoggingCfg, RateLimitCfg, ReputationCfg, ServerCfg, UpstreamCfg,
};
use waf_core::decision::{Action, Decision};
use waf_core::engine::Engine;
use waf_core::net::IpAddr;
use waf_core::request::{RequestCtx, TextMap};
use waf_core::runtime::{PersistedDefenses, PersistedToggles};

fn cfg() -> Config {
    Config {
        server: ServerCfg {
            listen: "0.0.0.0:8080".into(),
            listen_tls: "".into(),
            tls_cert: "".into(),
            tls_key: "".into(),
            redirect_to_https_port: 0,
            threads: 0,
            trusted_proxy_hops: 0,
        },
        upstream: UpstreamCfg {
            address: "127.0.0.1:8000".into(),
            sni: "".into(),
            tls: false,
            connect_timeout_ms: default_connect_timeout(),
            read_timeout_ms: default_read_timeout(),
        },
        limits: LimitsCfg {
            max_body_bytes: 1024,
            max_headers: 100,
            max_header_value_bytes: 8192,
            max_uri_bytes: 8192,
            allowed_methods: vec!["GET".into(), "POST".into()],
        },
        rate_limit: RateLimitCfg { enabled: false, requests_per_minute: 9999, burst: 0, routes: vec![] },
        reputation: ReputationCfg {
            allow_cidrs: vec![],
            deny_cidrs: vec![],
            auto_ban_threshold_hits: default_auto_ban_hits(),
            auto_ban_window_secs: default_auto_ban_window(),
            auto_ban_duration_secs: default_auto_ban_duration(),
        },
        geoip: GeoIpCfg::default(),
        detection: DetectionCfg {
            challenge_threshold: 40,
            block_threshold: 70,
            sqli: true,
            xss: true,
            traversal: true,
            cmdi: true,
            lfi: true,
            suspicious_user_agents: vec!["sqlmap".into()],
        },
        challenge: ChallengeCfg {
            hmac_secret: "a-very-secret-key-of-some-length".into(),
            cookie_name: default_cookie_name(),
            cookie_ttl_secs: default_cookie_ttl(),
            pow_difficulty: default_pow_difficulty(),
        },
        logging: LoggingCfg::default(),
        admin: AdminCfg::default(),
    }
}

fn engine() -> Engine {
    Engine::build(cfg(), b"salt").unwrap()
}

fn parse(bytes: &[u8]) -> ParsedReq {
    match head_step(bytes) {
        HeadStep::Ended(i) => parse_head(bytes, i),
        _ => panic!("no head"),
    }
}

fn get(target: &str) -> ParsedReq {
    parse(format!("GET {target} HTTP/1.1\r\nHost: x\r\n\r\n").as_bytes())
}

fn text(r: ApiReply) -> TextReply {
    match r {
        ApiReply::Text(t) => t,
        _ => panic!("no text"),
    }
}

fn no_change() -> RuntimePatch {
    RuntimePatch {
        under_attack: None,
        uam_level: None,
        challenge_mode: None,
        auto_uam_enabled: None,
        auto_uam_threshold: None,
        challenge_threshold: None,
        block_threshold: None,
        max_concurrent_per_ip: None,
        rpm_under_attack_bps: None,
        subnet_rpm: None,
        subnet_conn: None,
        global_inflight_cap: None,
        tarpit_score: None,
        datacenter_block: None,
        rules: None,
        defenses: None,
        blocked_countries: None,
        honeypot_paths: None,
        turnstile_provider: None,
        turnstile_site_key: None,
        turnstile_secret: None,
    }
}

fn logged(e: &mut Engine, ts: u64) {
    let ctx = RequestCtx {
        request_id: format!("r{ts}"),
        client_ip: IpAddr::v4(1, 2, 3, 4),
        method: "GET".into(),
        uri: "/".into(),
        path: "/".into(),
        query: "".into(),
        host: "h".into(),
        user_agent: "".into(),
        http_version: "HTTP/1.1".into(),
        headers: TextMap::new(),
        header_order: vec![],
        cookie_order: vec![],
        cookies: TextMap::new(),
        body_preview: vec![],
        content_length: None,
        country: None,
        ja4h: String::new(),
        ja3: String::new(),
        ja4: String::new(),
    };
    e.events.record_at(ts, &ctx, &Decision::allow("x".into()));
}

#[test]
fn a_request_head_is_read() {
    let mut r = parse(
        b"POST /api/runtime?a=1&b=%20x&c&a=2&& HTTP/1.1\r\nHost: h\r\nContent-Length:  5 \r\nX: y: z\r\nnothing\r\n\r\nhello world",
    );
    assert_eq!((r.method.as_str(), r.path.as_str()), ("POST", "/api/runtime"));
    assert_eq!(r.query.get("a").unwrap(), "2");
    assert_eq!(r.query.get("b").unwrap(), " x");
    assert_eq!(r.query.get("c").unwrap(), "");
    assert_eq!(r.query.len(), 3);
    assert_eq!(r.headers.get("x").unwrap(), "y: z");
    assert_eq!(r.content_length(), 5);
    assert_eq!(r.body_wanted(), 0);
    r.close_body();
    assert_eq!(r.body, b"hello");
}

#[test]
fn strange_heads_are_read_too() {
    let r = parse(b"\r\n\r\n");
    assert_eq!((r.method.as_str(), r.path.as_str()), ("", "/"));
    let r = parse(b"\xff\xfe GET\r\n\r\n");
    assert_eq!((r.method.as_str(), r.path.as_str()), ("", "/"));
    let r = parse(b"GET\r\nContent-Length: 99999999\r\n\r\nx");
    assert_eq!(r.path, "/");
    assert_eq!(r.content_length(), 1 << 20);
    assert_eq!(r.body_wanted(), 8192);
    let r = parse(b"GET /\r\nContent-Length: 3\r\n\r\nx");
    assert_eq!(r.body_wanted(), 2);
    let r = parse(b"GET /\r\nContent-Length: -3\r\n\r\nx");
    assert_eq!(r.content_length(), 0);
    assert_eq!(head_step(b"GET / HTTP/1.1\r\n"), HeadStep::More);
    assert_eq!(head_step(&vec![b'a'; 70_000]), HeadStep::Refused);
}

#[test]
fn queries_are_decoded() {
    let q = parse_query("k%3d=v%26&x=%ff");
    assert_eq!(q.get("k=").unwrap(), "v&");
    assert_eq!(q.get("x").unwrap(), "\u{fffd}");
    assert_eq!(parse_query("").len(), 0);
}

#[test]
fn ranges_are_ordered() {
    let now = 100_000_000;
    assert_eq!(parse_range(&parse_query(""), now), (now - 1_800_000, now));
    assert_eq!(parse_range(&parse_query("range=1h"), now), (now - 3_600_000, now));
    assert_eq!(parse_range(&parse_query("range=6h"), now), (now - 21_600_000, now));
    assert_eq!(parse_range(&parse_query("range=24h"), now), (now - 86_400_000, now));
    assert_eq!(parse_range(&parse_query("range=x"), 5), (0, 5));
    assert_eq!(parse_range(&parse_query("since=7&until=3"), now), (7, 7));
    assert_eq!(parse_range(&parse_query("since=7&until=30"), now), (7, 30));
    assert_eq!(parse_range(&parse_query("since=7"), now), (now - 1_800_000, now));
    let t = timeframe_at(&parse_query("since=7&until=30&limit=9999"), now);
    assert_eq!(t, Timeframe { since: 7, until: 30, limit: 5000 });
    assert_eq!(timeframe_at(&parse_query(""), now).limit, 500);
}

#[test]
fn the_token_is_wanted() {
    let bearer = |v: &str| parse(format!("GET /api/state HTTP/1.1\r\nAuthorization: {v}\r\n\r\n").as_bytes());
    assert!(auth_ok(&bearer("Bearer tok"), "tok"));
    assert!(auth_ok(&bearer("bearer tok"), "tok"));
    assert!(!auth_ok(&bearer("Bearer tok2"), "tok"));
    assert!(!auth_ok(&bearer("Basic tok"), "tok"));
    assert!(auth_ok(&get("/api/state?token=tok"), "tok"));
    assert!(!auth_ok(&get("/api/state?token=no"), "tok"));
    assert!(!auth_ok(&get("/api/state"), "tok"));
    assert!(auth_ok(&get("/api/state"), ""));
    let both = parse(b"GET /api/state?token=tok HTTP/1.1\r\nAuthorization: Bearer no\r\n\r\n");
    assert!(!auth_ok(&both, "tok"));
}

#[test]
fn requests_reach_their_endpoints() {
    let at = |target: &str| endpoint(&get(target), "");
    assert_eq!(at("/api/stream"), Endpoint::Stream);
    assert_eq!(at("/api/events/range?x=1"), Endpoint::Range);
    assert_eq!(at("/api/events/series"), Endpoint::Series);
    assert_eq!(at("/api/state"), Endpoint::State);
    assert_eq!(at("/api/events"), Endpoint::Events);
    assert_eq!(at("/api/goodbots"), Endpoint::GoodBots);
    assert_eq!(at("/api/banned"), Endpoint::Banned);
    assert_eq!(at("/api/runtime"), Endpoint::UnknownApi);
    assert_eq!(at("/healthz"), Endpoint::Health);
    assert_eq!(at("/"), Endpoint::Page);
    assert_eq!(at("/settings"), Endpoint::Page);
    assert_eq!(at("/static/dashboard.js"), Endpoint::Script);
    assert_eq!(at("/static/dashboard.css"), Endpoint::Style);
    assert_eq!(at("/nothing"), Endpoint::UnknownFile);
    let post = |target: &str| endpoint(&parse(format!("POST {target} HTTP/1.1\r\n\r\n").as_bytes()), "");
    assert_eq!(post("/api/runtime"), Endpoint::Patch);
    assert_eq!(post("/api/uam"), Endpoint::Uam);
    assert_eq!(post("/api/under_attack"), Endpoint::UnderAttack);
    assert_eq!(post("/api/ip/allow"), Endpoint::Allow);
    assert_eq!(post("/api/ip/deny"), Endpoint::Deny);
    assert_eq!(post("/api/ip/unallow"), Endpoint::Unallow);
    assert_eq!(post("/api/ip/undeny"), Endpoint::Undeny);
    assert_eq!(post("/api/unban"), Endpoint::Unban);
    assert_eq!(post("/"), Endpoint::UnknownFile);
    assert_eq!(endpoint(&get("/api/state"), "tok"), Endpoint::Unauthorized);
    assert_eq!(endpoint(&get("/api/nonsense"), "tok"), Endpoint::Unauthorized);
    assert_eq!(endpoint(&get("/"), "tok"), Endpoint::Page);
}

#[test]
fn levels_are_set() {
    let mut e = engine();
    let t = text(route_api(&mut e, Endpoint::Uam, &parse_query("level=3")));
    assert_eq!((t.status, t.body.as_str()), (200, "{\"uam_level\":3}"));
    assert_eq!(e.runtime.uam_level, 3);
    assert!(e.runtime.take_unsaved());
    let t = text(route_api(&mut e, Endpoint::Uam, &parse_query("level=99")));
    assert_eq!(t.body, "{\"uam_level\":4}");
    let t = text(route_api(&mut e, Endpoint::Uam, &parse_query("level=300")));
    assert_eq!(t.body, "{\"uam_level\":0}");
    let t = text(route_api(&mut e, Endpoint::Uam, &parse_query("panic=true&level=1")));
    assert_eq!(t.body, "{\"uam_level\":4}");
    let t = text(route_api(&mut e, Endpoint::UnderAttack, &parse_query("on=true")));
    assert_eq!(t.body, "{\"under_attack\":true}");
    assert!(e.runtime.under_attack);
    let t = text(route_api(&mut e, Endpoint::UnderAttack, &parse_query("")));
    assert_eq!(t.body, "{\"under_attack\":false}");
}

#[test]
fn lists_are_changed() {
    let mut e = engine();
    let t = text(route_api(&mut e, Endpoint::Deny, &parse_query("cidr=10.0.0.0/8")));
    assert_eq!((t.status, t.body.as_str()), (204, ""));
    assert_eq!(e.runtime.deny.len(), 1);
    route_api(&mut e, Endpoint::Deny, &parse_query("cidr=10.0.0.0%2F8"));
    assert_eq!(e.runtime.deny.len(), 1);
    let t = text(route_api(&mut e, Endpoint::Undeny, &parse_query("cidr=10.0.0.0/8")));
    assert_eq!(t.status, 204);
    assert!(e.runtime.deny.is_empty());
    route_api(&mut e, Endpoint::Allow, &parse_query("cidr=::1"));
    assert_eq!(e.runtime.allow.len(), 1);
    route_api(&mut e, Endpoint::Unallow, &parse_query("cidr=::1"));
    assert!(e.runtime.allow.is_empty());
    let t = text(route_api(&mut e, Endpoint::Allow, &parse_query("")));
    assert_eq!((t.status, t.body.as_str()), (400, "{\"error\":\"missing cidr\"}"));
    let t = text(route_api(&mut e, Endpoint::Allow, &parse_query("cidr=%22")));
    assert_eq!((t.status, t.body.as_str()), (400, "{\"error\":\"\\\": invalid IP address syntax\"}"));
}

#[test]
fn bans_are_listed_and_lifted() {
    let mut e = engine();
    e.reputations.force_ban_at(1000, IpAddr::v4(1, 2, 3, 4), 60);
    match route_api_at(&mut e, Endpoint::Banned, &parse_query(""), 1010) {
        ApiReply::Banned(list) => assert_eq!(list, vec![(IpAddr::v4(1, 2, 3, 4), 50)]),
        _ => panic!("no list"),
    }
    let t = text(route_api(&mut e, Endpoint::Unban, &parse_query("ip=1.2.3.4")));
    assert_eq!(t.status, 204);
    assert!(!e.reputations.is_banned_at(1010, IpAddr::v4(1, 2, 3, 4)));
    let t = text(route_api(&mut e, Endpoint::Unban, &parse_query("ip=x")));
    assert_eq!((t.status, t.body.as_str()), (400, "{\"error\":\"missing ip\"}"));
}

#[test]
fn settings_are_patched() {
    let mut e = engine();
    let before = e.runtime.block_threshold;
    let mut p = no_change();
    p.uam_level = Some(9);
    p.challenge_mode = Some(7);
    p.tarpit_score = Some(120);
    p.rules = Some(PersistedToggles {
        sqli: Some(false),
        xss: None,
        traversal: None,
        cmdi: None,
        lfi: None,
        bot_ua: None,
        rate_limit: None,
    });
    p.defenses = Some(PersistedDefenses {
        bot_score: None,
        behavior: Some(false),
        ddos: None,
        honeypots: None,
        subnet: None,
        replay: None,
        dist_ua: None,
        goodbot: None,
        bic: Some(true),
    });
    p.blocked_countries = Some(vec!["de".into()]);
    p.honeypot_paths = Some(vec!["/trap".into()]);
    p.turnstile_provider = Some("HCAPTCHA\u{c9}".into());
    p.turnstile_secret = Some("s".into());
    let stored = apply_patch(&mut e, &p);
    assert_eq!(stored.uam_level, Some(4));
    assert_eq!(stored.honeypot_paths, Some(vec!["/trap".to_string()]));
    assert_eq!((stored.defenses.bic, stored.turnstile_secret), (Some(true), None));
    assert_eq!((e.runtime.uam_level, e.runtime.challenge_mode, e.runtime.tarpit_score), (4, 2, 120));
    assert_eq!(e.runtime.block_threshold, before);
    assert!(!e.runtime.rules.sqli && e.runtime.rules.xss);
    assert!(!e.runtime.defenses.behavior && e.runtime.defenses.bic);
    assert_eq!(e.runtime.blocked_countries, vec!["DE".to_string()]);
    assert!(e.honeypots.is_trap("/trap") && !e.honeypots.is_trap("/.env"));
    assert_eq!(e.runtime.turnstile_provider, "hcaptcha\u{e9}");
    assert!(e.runtime.unsaved);
    let mut p = no_change();
    p.turnstile_secret = Some("".into());
    p.turnstile_site_key = Some("key".into());
    apply_patch(&mut e, &p);
    assert_eq!((e.runtime.turnstile_secret.as_str(), e.runtime.turnstile_site_key.as_str()), ("s", "key"));
    assert!(matches!(route_api(&mut e, Endpoint::Patch, &parse_query("")), ApiReply::WantsPatch));
    let before = format!("{:?}", e.runtime);
    apply_patch(&mut e, &no_change());
    assert_eq!(format!("{:?}", e.runtime), before);
    for at in [Endpoint::State, Endpoint::Events, Endpoint::GoodBots, Endpoint::Banned] {
        route_api(&mut e, at, &parse_query("level=1&on=true&cidr=1.1.1.1"));
    }
    assert_eq!(format!("{:?}", e.runtime), before);
}

#[test]
fn changes_survive_a_restart() {
    let mut e = engine();
    let mut p = no_change();
    p.uam_level = Some(2);
    p.defenses = Some(PersistedDefenses {
        bot_score: None,
        behavior: None,
        ddos: None,
        honeypots: None,
        subnet: None,
        replay: None,
        dist_ua: None,
        goodbot: None,
        bic: Some(!e.runtime.defenses.bic),
    });
    p.honeypot_paths = Some(vec!["/trap".into()]);
    p.turnstile_provider = Some("hcaptcha".into());
    p.turnstile_site_key = Some("key".into());
    p.turnstile_secret = Some("s".into());
    apply_patch(&mut e, &p);
    route_api(&mut e, Endpoint::Deny, &parse_query("cidr=10.0.0.0/8"));
    let mut again = engine();
    again.restore(&e.stored());
    assert_eq!(again.honeypots.snapshot(), vec!["/trap".to_string()]);
    assert_eq!(again.runtime.uam_level, 2);
    assert_eq!(again.runtime.defenses.bic, e.runtime.defenses.bic);
    assert_eq!(again.runtime.deny.len(), 1);
    assert_eq!(again.runtime.turnstile_provider, "hcaptcha");
    assert_eq!((again.runtime.turnstile_site_key.as_str(), again.runtime.turnstile_secret.as_str()), ("key", "s"));
    assert_eq!(again.runtime.auth_token, e.runtime.auth_token);
    let traps = engine().honeypots.snapshot();
    let mut bare = e.stored();
    bare.honeypot_paths = None;
    let mut third = engine();
    third.restore(&bare);
    assert_eq!(third.honeypots.snapshot(), traps);
}

#[test]
fn events_are_listed() {
    let mut e = engine();
    for ts in 1..=5u64 {
        logged(&mut e, ts);
    }
    let ts = |list: Vec<waf_core::events::Event>| list.iter().map(|e| e.ts_ms).collect::<Vec<u64>>();
    assert_eq!(ts(list_events(&e, &parse_query("limit=2"))), vec![5, 4]);
    assert_eq!(ts(list_events(&e, &parse_query("since=2"))), vec![3, 4, 5]);
    assert_eq!(ts(list_events(&e, &parse_query("since=2&limit=1"))), vec![3]);
    assert_eq!(ts(range_events(&e, None, 3)), vec![5, 4, 3]);
    assert_eq!(range_events(&e, Some(vec![]), 3).len(), 0);
    let (list, reached) = stream_step(&e, 3);
    assert_eq!((ts(list), reached), (vec![4, 5], 5));
    let (list, reached) = stream_step(&e, 5);
    assert_eq!((list.len(), reached), (0, 5));
    match route_api(&mut e, Endpoint::Events, &parse_query("limit=2")) {
        ApiReply::Events(list) => assert_eq!(list.len(), 2),
        _ => panic!("no events"),
    }
    assert!(matches!(route_api(&mut e, Endpoint::GoodBots, &parse_query("")), ApiReply::GoodBots(_)));
}

#[test]
fn the_report_shows_the_whole() {
    let mut e = engine();
    e.conns.inc(IpAddr::v4(1, 2, 3, 4));
    e.metrics.record_at(1000, Action::Block, "1.2.3.4", "/", None, None);
    let r = report(&e);
    assert_eq!((r.in_flight_total, r.metrics.blocked, r.subnets_tracked), (1, 1, 0));
    assert_eq!(r.runtime.honeypot_paths.unwrap(), e.honeypots.snapshot());
    assert!(matches!(route_api(&mut e, Endpoint::State, &parse_query("")), ApiReply::State(_)));
}

#[test]
fn unknown_endpoints_are_not_found() {
    let mut e = engine();
    let t = text(route_api(&mut e, Endpoint::UnknownApi, &parse_query("")));
    assert_eq!((t.status, t.body.as_str()), (404, "{\"error\":\"not found\"}"));
    let t = text(route_api(&mut e, Endpoint::Unauthorized, &parse_query("")));
    assert_eq!((t.status, t.body.as_str()), (401, "{\"error\":\"unauthorized\"}"));
    assert_eq!(healthy().body, "ok\n");
    let t = bad_request("x");
    assert!(head_of(&t).starts_with("HTTP/1.1 400 Bad Request\r\ncontent-type: application/json\r\ncontent-length: 13\r\n"));
}

#[test]
fn the_watchdog_moves_one_step_at_a_time() {
    let mut rt = engine().runtime;
    rt.auto_uam_enabled = true;
    rt.auto_uam_threshold = 20;
    let mut w = AutoUam::new(0);
    assert!(w.look_at(&mut rt, 100, 1000));
    assert_eq!(rt.uam_level, 1);
    assert!(!w.look_at(&mut rt, 10_000, 1029));
    assert_eq!(rt.uam_level, 1);
    assert!(w.look_at(&mut rt, 20_000, 1030));
    assert_eq!(rt.uam_level, 2);
    assert!(!w.look_at(&mut rt, 20_030, 1060));
    assert!(w.look_at(&mut rt, 20_055, 1061));
    assert_eq!(rt.uam_level, 1);
    rt.auto_uam_enabled = false;
    assert!(!w.look_at(&mut rt, 90_000, 2000));
    assert_eq!(w.prev_blocks, 90_000);
    rt.auto_uam_enabled = true;
    rt.uam_level = 4;
    assert!(!w.look_at(&mut rt, 900_000, 3000));
}

#[test]
fn a_sweep_drops_what_is_idle() {
    let mut e = engine();
    e.reputations.force_ban_at(1000, IpAddr::v4(1, 2, 3, 4), 60);
    e.conns.inc(IpAddr::v4(1, 1, 1, 1));
    sweep_at(&mut e, 1010);
    assert!(e.reputations.is_banned_at(1010, IpAddr::v4(1, 2, 3, 4)));
    assert_eq!(e.conns.total(), 1);
    sweep_at(&mut e, 5000);
    assert!(e.reputations.banned_at(1010).is_empty());
}
