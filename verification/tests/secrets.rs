//! Tokens, cookies, digests and texts.

use sha2::{Digest, Sha256};
use waf_core::bic::{Bic, BicError};
use waf_core::challenge::{verify_pow, ChallengeError, Challenger};
use waf_core::clock::{millis, now_ms, now_nanos, now_secs, shown_ms, shown_nanos, shown_secs};
use waf_core::crypto::{ct_eq, hex_head, seed, sha256_text, sign_text};
use waf_core::decode::decode;
use waf_core::hash::fnv64;
use waf_core::net::{parse_ip, IpAddr};
use waf_core::num::{dec, dec_signed, parse_bounded, parse_u64};
use waf_core::sort::{drop_repeats, sort_texts};
use waf_core::text::{split, split_lines, split_words, trim, unquote};
use waf_core::turnstile::{build_request, captcha_passed, render_page, split_response, urlenc, Provider};

const SECRET: &str = "a-very-secret-key-of-some-length";

fn addr(s: &str) -> IpAddr {
    parse_ip(s).unwrap()
}

#[test]
fn cookie_roundtrip_same_subnet() {
    let b = Bic::new(SECRET);
    let ip = addr("1.2.3.99");
    let (_, v) = b.mint(ip);
    assert!(b.verify_cookie(&v, ip));
    assert!(b.verify_cookie(&v, addr("1.2.3.10")));
    assert!(!b.verify_cookie(&v, addr("1.2.4.10")));
    assert!(!b.verify_cookie("garbage", ip));
}

#[test]
fn proof_check() {
    let b = Bic::new(SECRET);
    let t = b.issue(b"salt");
    let mut h = Sha256::new();
    h.update(t.challenge.as_bytes());
    h.update(b"2t1bic");
    let proof = hex::encode(&h.finalize()[..8]);
    b.verify_proof(&t.challenge, t.expires_at, &t.signature, &proof).unwrap();
    assert!(b.verify_proof(&t.challenge, t.expires_at, &t.signature, "deadbeef00112233").is_err());
}

#[test]
fn clearance_roundtrip() {
    let c = Challenger::new(SECRET, "ck", 60, 4);
    let v = c.mint_clearance();
    assert!(c.verify_clearance(&v));
    assert!(!c.verify_clearance("garbage"));
    assert!(!c.verify_clearance("123.abc"));
}

#[test]
fn pow_check() {
    let challenge = "abcd";
    let mut found = None;
    for n in 0..10_000u64 {
        if verify_pow(challenge, &n.to_string(), 1) {
            found = Some(n);
            break;
        }
    }
    assert!(found.is_some());
}

#[test]
fn token_signature_check() {
    let c = Challenger::new(SECRET, "ck", 60, 1);
    let t = c.issue(b"salt");
    let mut nonce = String::from("0");
    for n in 0..100_000u64 {
        let cand = n.to_string();
        if verify_pow(&t.challenge, &cand, t.difficulty) {
            nonce = cand;
            break;
        }
    }
    c.verify(&t.challenge, &nonce, &t.signature, t.expires_at).unwrap();
}

fn solve(challenge: &str, difficulty: u8) -> String {
    let mut n = 0u64;
    while !verify_pow(challenge, &n.to_string(), difficulty) {
        n += 1;
    }
    n.to_string()
}

#[test]
fn each_fault_of_a_solution_has_its_error() {
    let c = Challenger::new(SECRET, "ck", 60, 2);
    let t = c.issue_at(1000, 7, b"salt");
    assert_eq!(t.expires_at, 1120);
    assert_eq!(t.challenge.len(), 32);
    let nonce = solve(&t.challenge, 2);
    assert_eq!(c.verify_at(1120, &t.challenge, &nonce, &t.signature, t.expires_at), Ok(()));
    assert_eq!(
        c.verify_at(1121, &t.challenge, &nonce, &t.signature, t.expires_at),
        Err(ChallengeError::Expired)
    );
    assert_eq!(
        c.verify_at(1000, &t.challenge, &nonce, "bogus", t.expires_at),
        Err(ChallengeError::BadSig)
    );
    assert_eq!(
        c.verify_at(1000, &t.challenge, &nonce, &t.signature, t.expires_at + 1),
        Err(ChallengeError::BadSig)
    );
    let mut wrong = String::from("a");
    while verify_pow(&t.challenge, &wrong, 2) {
        wrong.push('a');
    }
    assert_eq!(
        c.verify_at(1000, &t.challenge, &wrong, &t.signature, t.expires_at),
        Err(ChallengeError::BadPow)
    );
    assert_eq!(ChallengeError::BadPow.message(), "proof of work invalid");
    assert_eq!(ChallengeError::Expired.message(), "token expired");
    assert_eq!(ChallengeError::BadSig.message(), "signature mismatch");
    assert_eq!(ChallengeError::BadFormat.message(), "token format invalid");
}

#[test]
fn a_harder_solution_is_a_solution() {
    let nonce = solve("some challenge", 3);
    assert!(verify_pow("some challenge", &nonce, 2));
    assert!(verify_pow("some challenge", &nonce, 1));
    assert!(verify_pow("some challenge", &nonce, 0));
}

#[test]
fn a_clearance_ends() {
    let c = Challenger::new(SECRET, "ck", 60, 4);
    let v = c.mint_clearance_at(1000);
    assert!(v.starts_with("1060."));
    assert!(c.verify_clearance_at(1059, &v));
    assert!(!c.verify_clearance_at(1060, &v));
    let other = Challenger::new("another-secret-of-some-length", "ck", 60, 4);
    assert!(!other.verify_clearance_at(1000, &v));
    assert_eq!((c.cookie_name(), c.cookie_ttl(), c.base_difficulty()), ("ck", 60, 4));
}

#[test]
fn each_fault_of_a_silent_check_has_its_error() {
    let b = Bic::new(SECRET);
    let t = b.issue_at(1000, 7, b"salt");
    let proof = "0000000000000000";
    assert_eq!(
        b.verify_proof_at(1000, &t.challenge, t.expires_at, &t.signature, proof),
        Err(BicError::BadProof)
    );
    assert_eq!(
        b.verify_proof_at(t.expires_at + 1, &t.challenge, t.expires_at, &t.signature, proof),
        Err(BicError::Expired)
    );
    assert_eq!(b.verify_proof_at(1000, &t.challenge, t.expires_at, "x", proof), Err(BicError::BadSig));
    assert_eq!(BicError::BadProof.message(), "integrity proof invalid");
    assert_eq!(BicError::BadFormat.message(), "token format invalid");
    assert_eq!(b.cookie_name(), "__2t1_bic");
    assert_eq!(b.ttl(), 1800);
}

#[test]
fn tokens_differ_with_their_salt() {
    let b = Bic::new(SECRET);
    assert_ne!(b.issue_at(1, 2, b"a").challenge, b.issue_at(1, 2, b"b").challenge);
    assert_ne!(b.issue_at(1, 2, b"a").challenge, b.issue_at(1, 3, b"a").challenge);
    assert_eq!(seed(5, b"x"), seed(5, b"x"));
    assert_eq!(seed(5, b"x").len(), 32);
}

#[test]
fn the_difficulty_is_bound_into_the_signature() {
    let c = Challenger::new(SECRET, "ck", 60, 1);
    let t = c.issue_with_at(1000, 7, b"salt", 2);
    let nonce = solve(&t.challenge, 2);
    let check = |s: &str, d: u8| c.verify_with_at(1000, &t.challenge, &nonce, s, t.expires_at, d);
    assert_eq!(check(&t.signature, 2), Ok(()));
    assert_eq!(check(&t.signature, 1), Err(ChallengeError::BadSig));
    assert_eq!(check(&t.signature, 0), Err(ChallengeError::BadSig));
    assert_eq!(c.verify_at(1000, &t.challenge, &nonce, &t.signature, t.expires_at), Err(ChallengeError::BadSig));
    assert_eq!(
        c.verify_with_at(1121, &t.challenge, &nonce, &t.signature, t.expires_at, 2),
        Err(ChallengeError::Expired)
    );
    assert_eq!(t.signature, sign_text(SECRET.as_bytes(), &format!("{}|{}|2", t.challenge, t.expires_at)));
    let hard = c.issue_with_at(1000, 7, b"salt", 65);
    assert_eq!(
        c.verify_with_at(1000, &hard.challenge, "0", &hard.signature, hard.expires_at, 65),
        Err(ChallengeError::BadPow)
    );
    let fresh = c.issue_with(b"salt", 3);
    assert_eq!(fresh.difficulty, 3);
}

#[test]
fn pages_hold_their_token() {
    let c = Challenger::new(SECRET, "ck", 60, 4);
    let t = c.issue_with_at(1000, 7, b"salt", 4);
    let page = c.render_page(&t, "req-1", "LOGO");
    assert!(page.contains(&t.challenge) && page.contains(&t.signature) && page.contains("req-1"));
    assert!(page.contains("LOGO"));
    let b = Bic::new(SECRET);
    let t = b.issue_at(1000, 7, b"salt");
    let page = b.render_page(&t, "req-2", "/x\"<y");
    assert!(page.contains(&t.challenge) && page.contains("req-2"));
    assert!(!page.contains("/x\"<y"));
    let page = render_page(Provider::Turnstile, "site-key", "req-3", "/back");
    assert!(page.contains("site-key") && page.contains("req-3") && page.contains("/back"));
    assert!(page.contains("challenges.cloudflare.com"));
}

#[test]
fn digests_are_the_known_ones() {
    assert_eq!(
        hex::encode(sha256_text("abc")),
        "ba7816bf8f01cfea414140de5dae2223b00361a396177a9cb410ff61f20015ad"
    );
    assert_eq!(hex_head(&sha256_text("abc"), 4), "ba7816bf");
    assert_eq!(
        sign_text(b"key", "The quick brown fox jumps over the lazy dog"),
        "97yD9DBThCSxMpjmqm-xQ-9NWaFJRhdZl0edvC0aPNg"
    );
    assert_eq!(fnv64(""), 0xcbf29ce484222325);
    assert_eq!(fnv64("a"), 0xaf63dc4c8601ec8c);
    assert!(ct_eq(b"abc", b"abc"));
    assert!(!ct_eq(b"abc", b"abd"));
    assert!(!ct_eq(b"abc", b"ab"));
}

#[test]
fn percent_decoding() {
    assert_eq!(decode("a%20b"), "a b");
    assert_eq!(decode("%zz%4"), "%zz%4");
    assert_eq!(decode("%e4%b8%ad"), "\u{4e2d}");
    assert_eq!(decode("%ff"), "\u{fffd}");
    assert_eq!(decode("plain"), "plain");
}

#[test]
fn a_form_is_read_back() {
    assert_eq!(urlenc("a b&c=\u{e9}~-_."), "a%20b%26c%3D%C3%A9~-_.");
    for s in ["", "a b", "50%", "\u{4e2d}/?#"] {
        assert_eq!(decode(&urlenc(s)), s);
    }
}

#[test]
fn the_question_to_a_captcha_service() {
    let r = build_request(Provider::Turnstile, "s&cret", "tok", "1.2.3.4");
    assert!(r.starts_with("POST /turnstile/v0/siteverify HTTP/1.1\r\nHost: challenges.cloudflare.com\r\n"));
    let body = "secret=s%26cret&response=tok&remoteip=1.2.3.4";
    assert!(r.ends_with(&format!("\r\n\r\n{body}")));
    assert!(r.contains(&format!("Content-Length: {}\r\n", body.len())));
    assert_eq!(split_response(b"HTTP/1.1 200 OK\r\n\r\n{}"), Some(b"{}".to_vec()));
    assert_eq!(split_response(b"no head"), None);
    assert!(captcha_passed("s", "t", Some(true)));
    assert!(!captcha_passed("s", "t", Some(false)));
    assert!(!captcha_passed("s", "t", None));
    assert!(!captcha_passed("", "t", Some(true)));
    assert!(!captcha_passed("s", "", Some(true)));
    assert_eq!(Provider::from_str("hcaptcha").host(), "hcaptcha.com");
    assert_eq!(Provider::from_str("anything").host(), "challenges.cloudflare.com");
}

#[test]
fn numbers_are_written_and_read() {
    assert_eq!(dec(0), "0");
    assert_eq!(dec(u64::MAX), "18446744073709551615");
    assert_eq!(dec_signed(-42), "-42");
    assert_eq!(dec_signed(i64::MIN), "-9223372036854775808");
    assert_eq!(parse_u64("18446744073709551615"), Some(u64::MAX));
    assert_eq!(parse_u64("18446744073709551616"), None);
    assert_eq!(parse_u64("+7"), Some(7));
    assert_eq!(parse_u64("-7"), None);
    assert_eq!(parse_u64(""), None);
    assert_eq!(parse_u64("+"), None);
    assert_eq!(parse_u64("007"), Some(7));
    assert_eq!(parse_bounded("255", 255), Some(255));
    assert_eq!(parse_bounded("256", 255), None);
}

#[test]
fn texts_are_cut() {
    assert_eq!(split("a,b,,c", ','), vec!["a", "b", "", "c"]);
    assert_eq!(split("", ','), vec![""]);
    assert_eq!(split_lines("a\r\nb\r\n\r\nc\rd\ne"), vec!["a", "b", "", "c\rd\ne"]);
    assert_eq!(split_words("  GET  /x\tHTTP/1.1 "), vec!["GET", "/x", "HTTP/1.1"]);
    assert!(split_words(" \u{a0} ").is_empty());
    assert_eq!(trim(" \u{3000}a b\n"), "a b");
    assert_eq!(unquote("\"\"a\"b\""), "a\"b");
}

#[test]
fn texts_are_sorted() {
    let list: Vec<String> = ["b", "a", "c", "a"].iter().map(|s| s.to_string()).collect();
    let sorted = sort_texts(&list);
    assert_eq!(sorted, vec!["a", "a", "b", "c"]);
    assert_eq!(drop_repeats(&sorted), vec!["a", "b", "c"]);
}

#[test]
fn the_clock_runs() {
    let a = now_secs();
    let b = now_ms();
    let c = now_nanos();
    assert!(a > 1_600_000_000);
    assert!(b / 1000 >= a && b / 1000 <= a + 2);
    assert!((c / 1_000_000) as u64 >= b);
    assert_eq!(millis(12, 345_678_901), 12_345);
}

#[test]
fn a_reading_of_the_clock_is_converted() {
    let reading = Some((12, 345_678_901));
    assert_eq!(shown_secs(reading), 12);
    assert_eq!(shown_ms(reading), 12_345);
    assert_eq!(shown_nanos(reading), 12_345_678_901);
    assert_eq!(shown_secs(None), 0);
    assert_eq!(shown_ms(None), 0);
    assert_eq!(shown_nanos(None), 0);
}
