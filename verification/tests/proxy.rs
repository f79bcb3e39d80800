//! The way of a request through the proxy.

use waf_core::config::{
    default_auto_ban_duration, default_auto_ban_hits, default_auto_ban_window, default_connect_timeout,
    default_cookie_name, default_cookie_ttl, default_pow_difficulty, default_read_timeout, AdminCfg, ChallengeCfg,
    Config, DetectionCfg, GeoIpCfg, LimitsCfg, LoggingCfg, RateLimitCfg, ReputationCfg, ServerCfg, UpstreamCfg,
};
use waf_core::challenge::verify_pow;
use waf_core::decision::{Action, Decision, DecisionReason};
use waf_core::engine::{Engine, Signals};
use waf_core::http::{find_double_crlf, reason, response_head, Reply};
use waf_core::net::{parse_ip, IpAddr};
use waf_core::proxy::{
    build_request_ctx, captcha_call, choose_test, finish, gen_request_id, gen_request_id_at, handle_bic_verify_at,
    handle_turnstile_verify_at, handle_verify, handle_verify_at, read_header, request_filter_at, resolve_client_ip, route, serve_block,
    serve_challenge, serve_challenge_at, serve_tarpit, upstream_headers, BicProof, FilterStep, Moment, RawHeader, RawRequest, Route,
    Solution, TestKind, WafCtx, RESPONSE_HEADERS,
};
use waf_core::redirect::HttpsRedirect;
use waf_core::request::parse_cookie_header;
use waf_core::runtime::ChallengeMode;

fn cfg() -> Config {
    Config {
        server: ServerCfg {
            listen: "0.0.0.0:8080".into(),
            listen_tls: "".into(),
            tls_cert: "".into(),
            tls_key: "".into(),
            redirect_to_https_port: 0,
            threads: 0,
            trusted_proxy_hops: 0,
        },
        upstream: UpstreamCfg {
            address: "127.0.0.1:8000".into(),
            sni: "".into(),
            tls: false,
            connect_timeout_ms: default_connect_timeout(),
            read_timeout_ms: default_read_timeout(),
        },
        limits: LimitsCfg {
            max_body_bytes: 1024,
            max_headers: 100,
            max_header_value_bytes: 8192,
            max_uri_bytes: 8192,
            allowed_methods: vec!["GET".into(), "POST".into()],
        },
        rate_limit: RateLimitCfg { enabled: false, requests_per_minute: 9999, burst: 0, routes: vec![] },
        reputation: ReputationCfg {
            allow_cidrs: vec![],
            deny_cidrs: vec![],
            auto_ban_threshold_hits: default_auto_ban_hits(),
            auto_ban_window_secs: default_auto_ban_window(),
            auto_ban_duration_secs: default_auto_ban_duration(),
        },
        geoip: GeoIpCfg::default(),
        detection: DetectionCfg {
            challenge_threshold: 40,
            block_threshold: 70,
            sqli: true,
            xss: true,
            traversal: true,
            cmdi: true,
            lfi: true,
            suspicious_user_agents: vec!["sqlmap".into()],
        },
        challenge: ChallengeCfg {
            hmac_secret: "a-very-secret-key-of-some-length".into(),
            cookie_name: default_cookie_name(),
            cookie_ttl_secs: default_cookie_ttl(),
            pow_difficulty: default_pow_difficulty(),
        },
        logging: LoggingCfg::default(),
        admin: AdminCfg::default(),
    }
}

fn engine() -> Engine {
    let mut e = Engine::build(cfg(), b"salt").unwrap();
    e.runtime.defenses.bot_score = false;
    e.runtime.defenses.behavior = false;
    e.runtime.defenses.ddos = false;
    e.runtime.defenses.bic = false;
    e
}

fn raw(method: &str, target: &str, headers: &[(&str, &str)]) -> RawRequest {
    let path = target.split('?').next().unwrap();
    RawRequest {
        socket_ip: Some(IpAddr::v4(1, 2, 3, 4)),
        method: method.into(),
        uri: target.into(),
        path: path.into(),
        query: target.split_once('?').map(|(_, q)| q.to_string()),
        target: Some(target.into()),
        version: "HTTP/1.1".into(),
        headers: headers
            .iter()
            .map(|(k, v)| RawHeader { name: k.to_string(), value: Some(v.to_string()) })
            .collect(),
    }
}

fn browser(method: &str, target: &str) -> RawRequest {
    raw(method, target, &[("Host", "h"), ("User-Agent", "Mozilla/5.0"), ("Accept", "*/*")])
}

const MOMENT: Moment = Moment { now_ms: 1_000_000, now_s: 1_000, nanos: 77 };

fn filter(e: &mut Engine, ctx: &mut WafCtx, r: &RawRequest) -> FilterStep {
    request_filter_at(e, ctx, r, "id-1".into(), &Signals::none(), "LOGO", MOMENT, b"salt")
}

fn header<'a>(r: &'a Reply, name: &str) -> Option<&'a str> {
    r.headers.get(name).map(|s| s.as_str())
}

fn body(r: &Reply) -> String {
    String::from_utf8(r.body.clone()).unwrap()
}

fn cookie_value(r: &Reply) -> String {
    let set = header(r, "set-cookie").unwrap();
    set.split_once('=').unwrap().1.split(';').next().unwrap().to_string()
}

#[test]
fn a_request_is_read() {
    let mut r = raw(
        "GET",
        "/a/b?x=1",
        &[
            ("Host", "example.org"),
            ("User-Agent", "ua"),
            ("Cookie", "B=2; a=1; junk"),
            ("X-A", "first"),
            ("x-a", "second"),
            ("Content-Length", "12"),
            ("Accept-Language", "de-DE"),
        ],
    );
    r.headers.push(RawHeader { name: "x-binary".into(), value: None });
    let c = build_request_ctx(&r, 0, "id".into());
    assert_eq!(c.request_id, "id");
    assert_eq!(c.client_ip, IpAddr::v4(1, 2, 3, 4));
    assert_eq!((c.path.as_str(), c.query.as_str()), ("/a/b", "x=1"));
    assert_eq!((c.host.as_str(), c.user_agent.as_str()), ("example.org", "ua"));
    assert_eq!(c.headers.get("x-a").unwrap(), "first");
    assert_eq!(
        c.header_order,
        vec!["host", "user-agent", "cookie", "x-a", "content-length", "accept-language"]
    );
    assert_eq!(c.cookie_order, vec!["b", "a"]);
    assert_eq!(c.cookies.get("B").unwrap(), "2");
    assert_eq!(c.content_length, Some(12));
    assert!(c.ja4h.starts_with("ge11cn05dede_"));
    assert!(read_header(&r.headers, "x-binary").is_none());
    assert_eq!(read_header(&r.headers, "x-a").as_deref(), Some("first"));
    let mut r = raw("GET", "/", &[("content-length", "x")]);
    r.query = None;
    let c = build_request_ctx(&r, 0, "id".into());
    assert_eq!(c.content_length, None);
    assert_eq!((c.query.as_str(), c.host.as_str()), ("", ""));
}

#[test]
fn the_client_stands_in_the_chain() {
    let me = Some(IpAddr::v4(9, 9, 9, 9));
    let chain = Some("6.6.6.6, 1.1.1.1 ,2.2.2.2");
    let at = |hops: u8| resolve_client_ip(me, chain, hops).to_text();
    assert_eq!(at(0), "9.9.9.9");
    assert_eq!(at(1), "2.2.2.2");
    assert_eq!(at(2), "1.1.1.1");
    assert_eq!(at(3), "6.6.6.6");
    assert_eq!(at(200), "6.6.6.6");
    assert_eq!(resolve_client_ip(me, Some("junk"), 1).to_text(), "9.9.9.9");
    assert_eq!(resolve_client_ip(me, None, 1).to_text(), "9.9.9.9");
    assert_eq!(resolve_client_ip(None, None, 0).to_text(), "0.0.0.0");
    assert_eq!(resolve_client_ip(me, Some("forged, x, 1.1.1.1 ,2.2.2.2"), 2).to_text(), "1.1.1.1");
}

#[test]
fn ids_have_sixteen_digits() {
    assert_eq!(gen_request_id_at(0, 0), "00000000b504f32d");
    assert_eq!(gen_request_id_at(0, 1), "00000000b504f32c");
    assert_eq!(gen_request_id(7).len(), 16);
    assert_ne!(gen_request_id_at(1, 0), gen_request_id_at(2, 0));
}

#[test]
fn reserved_paths_are_routed() {
    assert_eq!(route("/__2t1/verify", "post"), Route::Verify);
    assert_eq!(route("/__2t1/verify", "GET"), Route::Inspect);
    assert_eq!(route("/__2t1/bic-verify", "POST"), Route::BicVerify);
    assert_eq!(route("/__2t1/turnstile-verify", "POST"), Route::TurnstileVerify);
    assert_eq!(route("/__2t1/healthz", "PUT"), Route::Health);
    assert_eq!(route("/", "POST"), Route::Inspect);
}

#[test]
fn a_benign_request_goes_on_and_ends() {
    let mut e = engine();
    let mut ctx = WafCtx::new();
    let step = filter(&mut e, &mut ctx, &browser("GET", "/x"));
    assert!(matches!(step, FilterStep::Forward));
    assert_eq!(ctx.decision.as_ref().unwrap().action, Action::Allow);
    assert!(!ctx.handled_locally);
    assert_eq!((ctx.request_id.as_str(), ctx.client_ip.as_str()), ("id-1", "1.2.3.4"));
    assert_eq!(e.conns.total(), 1);
    assert_eq!(e.metrics.allowed, 1);
    finish(&mut e, &ctx, false);
    assert_eq!(e.conns.total(), 0);
    assert_eq!(e.metrics.upstream_errors, 0);
    finish(&mut e, &ctx, true);
    assert_eq!(e.metrics.upstream_errors, 1);
}

#[test]
fn a_full_proxy_turns_away() {
    let mut e = engine();
    e.runtime.global_inflight_cap = 1;
    e.conns.inc(IpAddr::v4(5, 5, 5, 5));
    let mut ctx = WafCtx::new();
    match filter(&mut e, &mut ctx, &browser("GET", "/x")) {
        FilterStep::Answer(r) => {
            assert_eq!(r.status, 503);
            assert_eq!(body(&r), "overloaded\n");
            assert_eq!(header(&r, "retry-after"), Some("5"));
            assert_eq!(header(&r, "connection"), Some("close"));
            assert_eq!(header(&r, "content-length"), Some("11"));
        }
        _ => panic!("not turned away"),
    }
    assert_eq!(e.metrics.upstream_errors, 1);
    assert_eq!(e.conns.total(), 1);
    assert!(ctx.tracked_ip.is_none());
}

#[test]
fn an_attack_is_answered_with_a_block() {
    let mut e = engine();
    let mut ctx = WafCtx::new();
    match filter(&mut e, &mut ctx, &browser("GET", "/x?id=1' OR 1=1--")) {
        FilterStep::Answer(r) => {
            assert_eq!(r.status, 403);
            assert_eq!(body(&r), "{\"error\":\"blocked\",\"request_id\":\"id-1\",\"rule\":\"SQLI-01\"}");
            assert_eq!(header(&r, "content-type"), Some("application/json"));
            assert_eq!(header(&r, "x-waf"), Some("2t1"));
        }
        _ => panic!("not answered"),
    }
    assert!(ctx.handled_locally);
    assert_eq!(e.metrics.blocked, 1);
}

#[test]
fn block_bodies_are_json() {
    let d = Decision::block(
        "a\"b\\c\u{1}\n\u{e9}".into(),
        429,
        DecisionReason { rule_id: "R".into(), category: "c".into(), score: 1, detail: "".into() },
    );
    let r = serve_block(&d);
    assert_eq!(
        body(&r),
        "{\"error\":\"blocked\",\"request_id\":\"a\\\"b\\\\c\\u0001\\n\u{e9}\",\"rule\":\"R\"}"
    );
    assert_eq!(header(&r, "retry-after"), Some("10"));
    let r = serve_block(&Decision::allow("x".into()));
    assert!(body(&r).ends_with("\"rule\":null}"));
    assert_eq!(header(&r, "retry-after"), None);
}

#[test]
fn reserved_requests_are_read_on() {
    let mut e = engine();
    e.runtime.uam_level = 4;
    for (path, which) in [("/__2t1/verify", 0), ("/__2t1/bic-verify", 1), ("/__2t1/turnstile-verify", 2), ("/__2t1/healthz", 3)] {
        let mut ctx = WafCtx::new();
        let step = filter(&mut e, &mut ctx, &browser("POST", path));
        assert!(ctx.handled_locally && ctx.decision.is_none());
        let got = match step {
            FilterStep::ReadSolution => 0,
            FilterStep::ReadBicProof => 1,
            FilterStep::ReadCaptcha => 2,
            FilterStep::Answer(r) => {
                assert_eq!((r.status, body(&r).as_str()), (200, "ok\n"));
                3
            }
            _ => 9,
        };
        assert_eq!(got, which);
    }
}

#[test]
fn a_score_can_be_held_in_the_tarpit() {
    let mut e = engine();
    e.runtime.tarpit_score = 70;
    let mut ctx = WafCtx::new();
    match filter(&mut e, &mut ctx, &browser("GET", "/x?id=1' OR 1=1--")) {
        FilterStep::Drip(r) => {
            assert_eq!(body(&r), "please-wait-please-wait-please\n");
            assert_eq!(header(&r, "content-length"), None);
        }
        _ => panic!("not held"),
    }
    assert_eq!(serve_tarpit().status, 200);
    assert_eq!(e.metrics.tarpit, 1);
}

#[test]
fn a_solved_challenge_opens_the_way() {
    let mut e = engine();
    e.runtime.uam_level = 3;
    let mut ctx = WafCtx::new();
    let page = match filter(&mut e, &mut ctx, &browser("GET", "/x")) {
        FilterStep::Answer(r) => {
            assert_eq!(r.status, 403);
            assert_eq!(header(&r, "x-waf-action"), Some("challenge"));
            body(&r)
        }
        _ => panic!("not challenged"),
    };
    let t = e.challenger.issue_with_at(1_000, 77, b"salt", e.pow_difficulty_for_uam());
    assert!(page.contains(&t.challenge) && page.contains(&t.signature));
    let mut n = 0u64;
    while !verify_pow(&t.challenge, &n.to_string(), t.difficulty) {
        n += 1;
    }
    let s = Some(Solution {
        challenge: t.challenge.clone(),
        nonce: n.to_string(),
        signature: t.signature.clone(),
        expires_at: t.expires_at,
        difficulty: t.difficulty,
    });
    let easier = Some(Solution {
        challenge: t.challenge.clone(),
        nonce: n.to_string(),
        signature: t.signature.clone(),
        expires_at: t.expires_at,
        difficulty: t.difficulty - 1,
    });
    assert_eq!(handle_verify_at(&e, &easier, 1_010).status, 400);
    let r = handle_verify_at(&e, &s, 1_010);
    assert_eq!((r.status, r.body.len()), (204, 0));
    let value = cookie_value(&r);
    assert!(header(&r, "set-cookie").unwrap().ends_with("; Path=/; Max-Age=1800; HttpOnly; SameSite=Lax"));
    let mut again = browser("GET", "/x");
    let cookie = format!("{}={}", e.challenger.cookie_name(), value);
    again.headers.push(RawHeader { name: "cookie".into(), value: Some(cookie) });
    let mut ctx = WafCtx::new();
    assert!(matches!(filter(&mut e, &mut ctx, &again), FilterStep::Forward));
    let late = handle_verify_at(&e, &s, t.expires_at + 1);
    assert_eq!(late.status, 400);
    assert_eq!(body(&late), "{\"error\":\"verification failed\"}");
    assert_eq!(handle_verify(&e, &None).status, 400);
}

#[test]
fn the_silent_check_comes_first() {
    let mut e = engine();
    e.runtime.defenses.bic = true;
    e.runtime.uam_level = 2;
    let r = browser("GET", "/x?y=1");
    let d = Decision::challenge("id-9".into(), 100, vec![]);
    let page = serve_challenge_at(&e, &r, &d, "LOGO", 1_000, 5, b"salt");
    assert_eq!((page.status, header(&page, "x-waf-action")), (200, Some("bic")));
    let t = e.bic.issue_at(1_000, 5, b"salt");
    assert!(body(&page).contains(&t.challenge));
    let proof = waf_core::crypto::hex_head(&waf_core::crypto::sha256_pair(&t.challenge, "2t1bic"), 8);
    let p = Some(BicProof {
        challenge: t.challenge.clone(),
        expires_at: t.expires_at,
        signature: t.signature.clone(),
        proof_text: proof,
    });
    let ok = handle_bic_verify_at(&e, &p, IpAddr::v4(1, 2, 3, 4), 1_001);
    assert_eq!(ok.status, 204);
    let mut again = browser("GET", "/x?y=1");
    again.headers.push(RawHeader { name: "cookie".into(), value: Some(format!("__2t1_bic={}", cookie_value(&ok))) });
    let page = serve_challenge_at(&e, &again, &d, "LOGO", 1_002, 5, b"salt");
    assert_eq!(header(&page, "x-waf-action"), Some("challenge"));
    again.socket_ip = Some(IpAddr::v4(7, 7, 7, 7));
    let page = serve_challenge_at(&e, &again, &d, "LOGO", 1_002, 5, b"salt");
    assert_eq!(header(&page, "x-waf-action"), Some("bic"));
    let bad = handle_bic_verify_at(&e, &None, IpAddr::v4(1, 2, 3, 4), 1_001);
    assert_eq!((bad.status, body(&bad).as_str()), (400, "{\"error\":\"bic verification failed\"}"));
    assert_eq!(serve_challenge(&e, &again, &d, "LOGO", b"salt").status, 200);
}

#[test]
fn the_captcha_needs_a_site_key() {
    assert_eq!(choose_test(true, false, ChallengeMode::Interactive, "k"), TestKind::Bic);
    assert_eq!(choose_test(true, true, ChallengeMode::Interactive, "k"), TestKind::Captcha);
    assert_eq!(choose_test(false, false, ChallengeMode::Combined, "k"), TestKind::Captcha);
    assert_eq!(choose_test(false, false, ChallengeMode::Combined, ""), TestKind::Pow);
    assert_eq!(choose_test(false, false, ChallengeMode::Pow, "k"), TestKind::Pow);
    let mut e = engine();
    e.runtime.challenge_mode = 1;
    e.runtime.turnstile_site_key = "site".into();
    e.runtime.turnstile_provider = "hcaptcha".into();
    let d = Decision::challenge("id-9".into(), 100, vec![]);
    let page = serve_challenge_at(&e, &browser("GET", "/x"), &d, "LOGO", 1_000, 5, b"salt");
    assert_eq!((page.status, header(&page, "x-waf-action")), (403, Some("captcha")));
    let no = captcha_call(&e, "tok", IpAddr::v4(1, 2, 3, 4)).err().unwrap();
    assert_eq!((no.status, body(&no).as_str()), (503, "{\"error\":\"captcha not configured\"}"));
    e.runtime.turnstile_secret = "s".into();
    let call = captcha_call(&e, "tok", IpAddr::v4(1, 2, 3, 4)).unwrap();
    assert_eq!((call.secret.as_str(), call.token.as_str(), call.remote_ip.as_str()), ("s", "tok", "1.2.3.4"));
    assert_eq!(call.provider.host(), "hcaptcha.com");
    assert_eq!(handle_turnstile_verify_at(&e, true, 1_000).status, 204);
    let no = handle_turnstile_verify_at(&e, false, 1_000);
    assert_eq!((no.status, body(&no).as_str()), (403, "{\"error\":\"captcha verification failed\"}"));
}

#[test]
fn the_upstream_learns_the_client() {
    let mut ctx = WafCtx::new();
    ctx.request_id = "id".into();
    ctx.client_ip = "1.2.3.4".into();
    let h = upstream_headers(&ctx, true);
    let texts: Vec<(&str, &str)> = h.iter().map(|(k, v)| (*k, v.as_str())).collect();
    assert_eq!(
        texts,
        vec![
            ("x-waf-request-id", "id"),
            ("x-real-ip", "1.2.3.4"),
            ("x-forwarded-for", "1.2.3.4"),
            ("x-forwarded-proto", "https")
        ]
    );
    assert_eq!(upstream_headers(&ctx, false)[3].1, "http");
    assert_eq!(RESPONSE_HEADERS[0], ("x-waf", "2t1"));
}

#[test]
fn clear_text_is_redirected() {
    let r = HttpsRedirect::new(443);
    assert_eq!(r.location(Some("h.example:80"), Some("/a?b")), "https://h.example/a?b");
    assert_eq!(r.location(None, None), "https:///");
    let r = HttpsRedirect::new(8443);
    assert_eq!(r.location(Some("h"), Some("/")), "https://h:8443/");
    let reply = r.reply(Some("h"), Some("/"));
    assert_eq!(reply.status, 301);
    assert_eq!(header(&reply, "location"), Some("https://h:8443/"));
    assert_eq!(header(&reply, "content-length"), Some("0"));
}

#[test]
fn heads_end_with_an_empty_line() {
    assert_eq!(find_double_crlf(b"a\r\n\r\nb\r\n\r\n"), Some(1));
    assert_eq!(find_double_crlf(b"\r\n\r"), None);
    assert_eq!(reason(404), "Not Found");
    assert_eq!(reason(418), "OK");
    let h = response_head(200, "text/plain", 3);
    assert!(h.starts_with("HTTP/1.1 200 OK\r\ncontent-type: text/plain\r\ncontent-length: 3\r\n"));
    assert!(h.ends_with("connection: close\r\n\r\n"));
}

#[test]
fn cookies_that_are_set_are_read_back() {
    let e = engine();
    let value = e.challenger.mint_clearance_at(1_000);
    let header = format!("a=1; {}={}; b=2", e.challenger.cookie_name(), value);
    assert_eq!(parse_cookie_header(&header).get(e.challenger.cookie_name()).unwrap(), &value);
    let alone = format!("{}={}", e.challenger.cookie_name(), value);
    assert_eq!(parse_cookie_header(&alone).get(e.challenger.cookie_name()).unwrap(), &value);
    assert_eq!(parse_ip("1.2.3.4").unwrap(), IpAddr::v4(1, 2, 3, 4));
}
