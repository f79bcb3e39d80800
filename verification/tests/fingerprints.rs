//! What the headers of a request tell about the client.

use waf_core::browser_check::{verify, BrowserVerdict};
use waf_core::decision::DecisionReason;
use waf_core::fingerprint::compute;
use waf_core::h2_anomaly;
use waf_core::net::IpAddr;
use waf_core::request::{parse_cookie_header, RequestCtx, TextMap};

fn map(pairs: &[(&str, &str)]) -> TextMap {
    let mut m = TextMap::new();
    for (k, v) in pairs {
        m.insert(k.to_string(), v.to_string());
    }
    m
}

fn ctx(headers: &[(&str, &str)], ua: &str, method: &str, ver: &str, ja3: &str, ja4: &str) -> RequestCtx {
    RequestCtx {
        request_id: "t".into(),
        client_ip: IpAddr::v4(1, 2, 3, 4),
        method: method.into(),
        uri: "/".into(),
        path: "/".into(),
        query: "".into(),
        host: "h".into(),
        user_agent: ua.into(),
        http_version: ver.into(),
        headers: map(headers),
        header_order: vec![],
        cookie_order: vec![],
        cookies: TextMap::new(),
        body_preview: vec![],
        content_length: None,
        country: None,
        ja4h: String::new(),
        ja3: ja3.into(),
        ja4: ja4.into(),
    }
}

fn h2(version: &str, headers: &[(&str, &str)]) -> Vec<DecisionReason> {
    h2_anomaly::score(&ctx(headers, "", "GET", version, "", ""))
}

fn fired(rs: &[DecisionReason], id: &str) -> bool {
    rs.iter().any(|r| r.rule_id == id)
}

const CHROME_UA: &str = "Mozilla/5.0 (Windows NT 10.0; Win64; x64) AppleWebKit/537.36 (KHTML, like Gecko) Chrome/123.0.0.0 Safari/537.36";

#[test]
fn real_chrome_is_trusted() {
    let v = verify(&ctx(
        &[
            ("accept", "text/html,application/xhtml+xml,*/*;q=0.8"),
            ("accept-language", "en-US,en;q=0.9"),
            ("accept-encoding", "gzip, deflate, br"),
            ("sec-fetch-dest", "document"),
            ("sec-fetch-mode", "navigate"),
            ("sec-ch-ua", "\"Chromium\";v=\"123\", \"Not?A_Brand\";v=\"24\""),
            ("sec-ch-ua-mobile", "?0"),
        ],
        CHROME_UA,
        "GET",
        "HTTP/2.0",
        "",
        "",
    ));
    assert_eq!(v, BrowserVerdict::Trusted, "real Chrome must be trusted");
}

#[test]
fn chrome_ua_without_client_hints_is_forged() {
    let v = verify(&ctx(&[("accept", "*/*")], CHROME_UA, "GET", "HTTP/1.1", "", ""));
    assert!(matches!(v, BrowserVerdict::Forged(_)), "bare Chrome UA must be forged, got {:?}", v);
}

#[test]
fn chrome_ua_over_http10_is_forged() {
    let v = verify(&ctx(&[("accept", "text/html")], CHROME_UA, "GET", "HTTP/1.0", "", ""));
    assert!(matches!(v, BrowserVerdict::Forged(_)));
}

#[test]
fn curl_is_unverified_not_forged() {
    let v = verify(&ctx(&[("accept", "*/*")], "curl/8.4.0", "GET", "HTTP/1.1", "", ""));
    assert_eq!(v, BrowserVerdict::Unverified);
}

#[test]
fn empty_ua_is_unverified() {
    let v = verify(&ctx(&[], "", "GET", "HTTP/1.1", "", ""));
    assert_eq!(v, BrowserVerdict::Unverified);
}

#[test]
fn fake_sec_ch_ua_brand_is_forged() {
    let v = verify(&ctx(
        &[
            ("accept", "text/html"),
            ("sec-fetch-mode", "navigate"),
            ("sec-ch-ua", "\"definitely\";v=\"1\""),
            ("accept-language", "en"),
            ("accept-encoding", "gzip"),
        ],
        CHROME_UA,
        "GET",
        "HTTP/2.0",
        "",
        "",
    ));
    assert!(matches!(v, BrowserVerdict::Forged(_)), "bogus sec-ch-ua brand must be forged, got {:?}", v);
}

#[test]
fn real_firefox_is_trusted_without_client_hints() {
    let ff = "Mozilla/5.0 (X11; Linux x86_64; rv:124.0) Gecko/20100101 Firefox/124.0";
    let v = verify(&ctx(
        &[
            ("accept", "text/html,application/xhtml+xml"),
            ("accept-language", "en-US,en;q=0.5"),
            ("accept-encoding", "gzip, deflate, br"),
            ("sec-fetch-dest", "document"),
            ("sec-fetch-mode", "navigate"),
        ],
        ff,
        "GET",
        "HTTP/2.0",
        "",
        "",
    ));
    assert_eq!(v, BrowserVerdict::Trusted);
}

#[test]
fn tls_fingerprint_rescues_hint_stripped_chrome() {
    let v = verify(&ctx(
        &[
            ("accept", "text/html,*/*;q=0.8"),
            ("accept-language", "en-US"),
            ("accept-encoding", "gzip, deflate, br"),
            ("sec-fetch-mode", "navigate"),
        ],
        CHROME_UA,
        "GET",
        "HTTP/2.0",
        "",
        "t13d1516h2_8daaf6152771_b186095e22b6",
    ));
    assert_eq!(v, BrowserVerdict::Trusted);
}

#[test]
fn browser_ua_with_scripting_tls_is_forged() {
    let v = verify(&ctx(
        &[
            ("accept", "text/html"),
            ("accept-language", "en"),
            ("accept-encoding", "gzip"),
            ("sec-fetch-mode", "navigate"),
            ("sec-ch-ua", "\"Chromium\";v=\"123\""),
            ("sec-ch-ua-mobile", "?0"),
        ],
        CHROME_UA,
        "GET",
        "HTTP/2.0",
        "",
        "t10d000000_aaaaaaaaaaaa_bbbbbbbbbbbb",
    ));
    assert!(matches!(v, BrowserVerdict::Forged(_)), "TLS 1.0 stack + Chrome UA must be forged, got {:?}", v);
}

#[test]
fn empty_ja4h_shape() {
    let h = map(&[("user-agent", "x")]);
    let out = compute("GET", "HTTP/1.1", &["user-agent".into()], &h, &[], &TextMap::new());
    assert!(out.starts_with("ge11nn010000_"));
    assert!(out.ends_with("_000000000000_000000000000"));
}

#[test]
fn lang_extracted() {
    let h = map(&[("accept-language", "tr-TR,en;q=0.9")]);
    let out = compute("POST", "HTTP/2.0", &["accept-language".into()], &h, &[], &TextMap::new());
    assert!(out.starts_with("po20nn01trtr_"));
}

#[test]
fn cookies_change_d() {
    let h = map(&[("cookie", "a=1; b=2")]);
    let mut c = map(&[("a", "1"), ("b", "2")]);
    let out1 = compute("GET", "HTTP/1.1", &["cookie".into()], &h, &["a".into(), "b".into()], &c);
    c.insert("b".into(), "3".into());
    let out2 = compute("GET", "HTTP/1.1", &["cookie".into()], &h, &["a".into(), "b".into()], &c);
    assert_ne!(out1, out2, "ja4h_d should differ when cookie values change");
}

#[test]
fn h1_request_gets_no_score() {
    assert!(h2("HTTP/1.1", &[("connection", "close")]).is_empty());
}

#[test]
fn h2_with_connection_header_blocks() {
    let r = h2(
        "HTTP/2.0",
        &[("user-agent", "ua"), ("connection", "close"), ("accept", "*/*"), ("accept-language", "en")],
    );
    assert!(fired(&r, "H2-FORBIDDEN-HDR"));
}

#[test]
fn h2_te_must_be_trailers() {
    let r = h2("HTTP/2.0", &[("user-agent", "ua"), ("te", "gzip"), ("accept", "*/*"), ("accept-language", "en")]);
    assert!(fired(&r, "H2-TE-INVALID"));
    let ok = h2("HTTP/2.0", &[("user-agent", "ua"), ("te", "trailers"), ("accept", "*/*"), ("accept-language", "en")]);
    assert!(!fired(&ok, "H2-TE-INVALID"));
}

#[test]
fn h2_minimal_headers_flagged() {
    assert!(fired(&h2("HTTP/2.0", &[("user-agent", "ua")]), "H2-MIN-HDRS"));
}

#[test]
fn cookies_split() {
    let m = parse_cookie_header("a=1; b=hello; c=\"x y\"");
    assert_eq!(m.get("a").unwrap(), "1");
    assert_eq!(m.get("b").unwrap(), "hello");
    assert_eq!(m.get("c").unwrap(), "x y");
}

#[test]
fn the_last_cookie_of_a_name_wins() {
    let m = parse_cookie_header("a=1;a=2; noequals; =x");
    assert_eq!(m.get("a").unwrap(), "2");
    assert_eq!(m.len(), 2);
    assert!(m.get("noequals").is_none());
    assert_eq!(m.get("").unwrap(), "x");
}

#[test]
fn headers_are_found_in_any_case() {
    let c = ctx(&[("accept", "*/*")], "", "GET", "HTTP/1.1", "", "");
    assert_eq!(c.header("Accept"), Some("*/*"));
    assert_eq!(c.header("host"), None);
    assert_eq!(c.cookie("a"), None);
}

/// The second and third part of the fingerprint are digests of names: 12 hexadecimal digits each.
#[test]
fn a_full_fingerprint_has_four_parts() {
    let h = map(&[("cookie", "a=1"), ("referer", "/x"), ("accept", "*/*")]);
    let order: Vec<String> = vec!["cookie".into(), "referer".into(), "accept".into()];
    let c = map(&[("a", "1")]);
    let out = compute("GET", "HTTP/1.1", &order, &h, &["a".into()], &c);
    let parts: Vec<&str> = out.split('_').collect();
    assert_eq!(parts.len(), 4);
    assert_eq!(parts[0], "ge11cr010000");
    for p in &parts[1..] {
        assert_eq!(p.len(), 12);
        assert!(p.chars().all(|c| c.is_ascii_hexdigit()));
    }
    assert_ne!(parts[2], "000000000000");
    assert_ne!(parts[2], parts[3]);
}

#[test]
fn the_order_of_cookies_does_not_count() {
    let h = map(&[("cookie", "a=1; b=2")]);
    let one = compute("GET", "HTTP/1.1", &[], &h, &["a".into(), "b".into()], &map(&[("a", "1"), ("b", "2")]));
    let two = compute("GET", "HTTP/1.1", &[], &h, &["b".into(), "a".into()], &map(&[("b", "2"), ("a", "1")]));
    assert_eq!(one, two);
    let names = ["b".into(), "a".into(), "b".into()];
    assert_eq!(one, compute("GET", "HTTP/1.1", &[], &h, &names, &map(&[("b", "2"), ("a", "1")])));
}
