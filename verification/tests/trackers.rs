//! Everything that remembers something about the traffic.

use waf_core::behavior::BehaviorTracker;
use waf_core::config::{RateLimitCfg, ReputationCfg, RouteRateLimit};
use waf_core::connections::ConnTracker;
use waf_core::counts::Counts;
use waf_core::decision::{Action, DecisionReason};
use waf_core::goodbot::{find_bot, is_vendor_name, judge_lookup, GoodBotVerifier, Lookup, Verdict, BOT_COUNT};
use waf_core::honeypots::Honeypots;
use waf_core::metrics::Metrics;
use waf_core::net::{parse_ip, parse_net, subnet_key, subnet_marker, IpAddr};
use waf_core::ratelimit::RateLimiter;
use waf_core::reputation::{Reputation, Reputations};
use waf_core::signature::{DistributedUa, RequestReplay};
use waf_core::subnet::SubnetTracker;
use waf_core::window::{Counter, Recent};

fn ip(n: u8) -> IpAddr {
    IpAddr::v4(10, 0, 0, n)
}

fn addr(s: &str) -> IpAddr {
    parse_ip(s).unwrap()
}

fn fired(rs: &[DecisionReason], id: &str) -> bool {
    rs.iter().any(|r| r.rule_id == id)
}

#[test]
fn nonbrowser_single_path_flood_is_flagged() {
    let mut t = BehaviorTracker::default();
    let mut last = Vec::new();
    for i in 1..=30 {
        last = t.observe(ip(1), "/api/x", "GET", "curl/8", false);
        if i == 29 {
            assert!(!fired(&last, "BHV-LOWDIV"), "fired too early — double counting?");
        }
    }
    assert!(fired(&last, "BHV-LOWDIV"), "single-target flood must be flagged");
}

#[test]
fn browserish_single_path_polling_is_clean() {
    let mut t = BehaviorTracker::default();
    let mut last = Vec::new();
    for _ in 0..120 {
        last = t.observe(ip(2), "/api/notifications", "GET", "Mozilla/5.0", true);
    }
    assert!(!fired(&last, "BHV-LOWDIV"), "legit SPA polling must not be flagged");
    assert!(!fired(&last, "BHV-REGULAR"), "legit timer polling must not be flagged");
}

#[test]
fn small_ua_churn_behind_nat_is_clean() {
    let mut t = BehaviorTracker::default();
    let uas = ["Mozilla/5.0 A", "Mozilla/5.0 B", "Mozilla/5.0 C"];
    let mut last = Vec::new();
    for (i, ua) in uas.iter().cycle().take(15).enumerate() {
        last = t.observe(ip(3), &format!("/p{}", i % 6), "GET", ua, true);
    }
    assert!(!fired(&last, "BHV-UA-CHURN"), "3 UAs from a NAT must not trip churn");
}

#[test]
fn even_intervals_are_flagged() {
    let mut t = BehaviorTracker::new();
    let mut last = Vec::new();
    for i in 0..40u64 {
        last = t.observe_at(1_000_000 + i * 1000, ip(4), &format!("/p{i}"), "GET", "curl/8", false);
    }
    let r = last.iter().find(|r| r.rule_id == "BHV-REGULAR").unwrap();
    assert_eq!(r.detail, "interval cv=0.00 mean=1000ms n=16");
    assert_eq!(r.score, 35);
    let mut t = BehaviorTracker::new();
    let mut now = 1_000_000u64;
    for i in 0..40u64 {
        now += if i % 2 == 0 { 1000 } else { 3000 };
        last = t.observe_at(now, ip(4), &format!("/p{i}"), "GET", "curl/8", false);
    }
    assert!(!fired(&last, "BHV-REGULAR"));
}

#[test]
fn quick_even_intervals_are_flagged() {
    let mut t = BehaviorTracker::new();
    let mut last = Vec::new();
    for i in 0..16u64 {
        last = t.observe_at(1_000_000 + i * 250, ip(4), &format!("/p{i}"), "GET", "curl/8", false);
    }
    let r = last.iter().find(|r| r.rule_id == "BHV-REGULAR").unwrap();
    assert_eq!(r.detail, "interval cv=0.00 mean=250ms n=15");
}

#[test]
fn a_slow_poll_never_adds_up() {
    let mut t = BehaviorTracker::new();
    for i in 0..400u64 {
        let r = t.observe_at(1_000_000 + i * 10_000, ip(2), "/poll", "GET", "Mozilla/5.0", true);
        assert!(!fired(&r, "BHV-LOWDIV"));
    }
}

#[test]
fn a_browser_flood_is_counted_in_the_window() {
    let mut t = BehaviorTracker::new();
    t.observe_at(1_000_000, ip(2), "/a", "GET", "Mozilla/5.0", true);
    t.observe_at(1_000_000, ip(2), "/b", "GET", "Mozilla/5.0", true);
    let mut first = None;
    for i in 0..400u64 {
        let r = t.observe_at(1_000_000 + i * 300, ip(2), "/x", "GET", "Mozilla/5.0", true);
        if first.is_none() && fired(&r, "BHV-LOWDIV") {
            first = Some(i);
        }
    }
    assert_eq!(first, Some(200));
    let mut t = BehaviorTracker::new();
    for i in 0..180u64 {
        let r = t.observe_at(1_000_000 + i * 300, ip(2), "/x", "GET", "Mozilla/5.0", true);
        assert_eq!(fired(&r, "BHV-LOWDIV"), i == 179);
        if i == 179 {
            assert_eq!(r[0].detail, "180 requests on 1 unique paths in window");
        }
    }
}

#[test]
fn addresses_are_judged_apart() {
    let mut t = BehaviorTracker::new();
    for i in 0..29u64 {
        t.observe_at(1_000_000 + i, ip(1), "/x", "GET", "curl/8", false);
    }
    assert!(t.observe_at(1_000_030, ip(2), "/x", "GET", "curl/8", false).is_empty());
    assert!(fired(&t.observe_at(1_000_031, ip(1), "/x", "GET", "curl/8", false), "BHV-LOWDIV"));
}

#[test]
fn a_flood_of_one_method_is_flagged() {
    let mut t = BehaviorTracker::new();
    let mut last = Vec::new();
    for i in 0..25u64 {
        last = t.observe_at(1_000_000 + i, ip(1), &format!("/{i}"), "OPTIONS", "curl/8", true);
    }
    let r = last.iter().find(|r| r.rule_id == "BHV-METHOD-BIAS").unwrap();
    assert_eq!((r.score, r.detail.as_str()), (25, "100% OPTIONS+HEAD of 25 requests"));
}

#[test]
fn behavior_forgets_idle_clients() {
    let mut t = BehaviorTracker::new();
    t.observe_at(1_000_000, ip(1), "/", "GET", "x", false);
    t.observe_at(1_000_000, ip(2), "/", "GET", "x", false);
    assert_eq!(t.tracked_ips(), 2);
    t.observe_at(1_000_000 + 600_000, ip(3), "/", "GET", "x", false);
    assert_eq!(t.tracked_ips(), 1);
}

#[test]
fn total_tracks_inc_dec() {
    let mut c = ConnTracker::default();
    assert_eq!(c.total(), 0);
    c.inc(ip(1));
    c.inc(ip(1));
    c.inc(ip(2));
    assert_eq!(c.total(), 3);
    assert_eq!(c.current(ip(1)), 2);
    c.dec(ip(1));
    c.dec(ip(2));
    assert_eq!(c.total(), 1);
}

#[test]
fn over_dec_never_goes_negative() {
    let mut c = ConnTracker::default();
    c.inc(ip(1));
    c.dec(ip(1));
    c.dec(ip(1));
    c.dec(ip(1));
    assert_eq!(c.total(), 0, "global must floor at 0");
}

#[test]
fn gc_drops_idle_without_disturbing_total() {
    let mut c = ConnTracker::default();
    c.inc(ip(1));
    c.dec(ip(1));
    c.inc(ip(2));
    c.gc();
    assert_eq!(c.current(ip(1)), 0, "idle entry swept");
    assert_eq!(c.total(), 1, "in-flight total preserved across gc");
}

#[test]
fn matches_default_trap() {
    let h = Honeypots::default();
    assert!(h.is_trap("/.env"));
    assert!(h.is_trap("/wp-config.php"));
    assert!(h.is_trap("/phpmyadmin/index.php"));
    assert!(!h.is_trap("/index.html"));
    assert!(!h.is_trap("/api/users"));
}

#[test]
fn traps_can_be_replaced() {
    let mut h = Honeypots::default();
    h.replace(vec!["/secret".to_string()]);
    assert!(!h.is_trap("/.env"));
    assert!(h.is_trap("/secret"));
    assert_eq!(h.snapshot(), vec!["/secret".to_string()]);
    assert!(h.check("/x").is_none());
    assert!(h.check("/secret").is_some());
}

fn limits(rpm: u32, burst: u32) -> RateLimitCfg {
    RateLimitCfg { enabled: true, requests_per_minute: rpm, burst, routes: vec![] }
}

#[test]
fn under_limit_passes() {
    let mut rl = RateLimiter::new(&limits(100, 10)).unwrap();
    for _ in 0..50 {
        rl.check(addr("1.2.3.4"), "/x").unwrap();
    }
}

#[test]
fn over_limit_blocks() {
    let mut rl = RateLimiter::new(&limits(10, 0)).unwrap();
    let mut blocked = false;
    for _ in 0..30 {
        if rl.check(addr("1.2.3.4"), "/x").is_err() {
            blocked = true;
            break;
        }
    }
    assert!(blocked);
}

#[test]
fn ipv6_64_shares_one_counter() {
    let mut rl = RateLimiter::new(&limits(10, 0)).unwrap();
    let mut blocked = false;
    for i in 0..30u16 {
        let a = format!("2001:db8::{:x}:{:x}", i, i.wrapping_mul(7));
        if rl.check(addr(&a), "/x").is_err() {
            blocked = true;
            break;
        }
    }
    assert!(blocked, "addresses within one /64 must accumulate on one counter");
}

#[test]
fn distinct_ipv6_64s_are_independent() {
    let mut rl = RateLimiter::new(&limits(10, 0)).unwrap();
    for i in 0..30u16 {
        let a = format!("2001:db8:{:x}::1", i);
        rl.check(addr(&a), "/x").expect("distinct /64s must not pool");
    }
}

#[test]
fn the_limit_is_exact() {
    let mut rl = RateLimiter::new(&limits(10, 2)).unwrap();
    for _ in 0..12 {
        assert!(rl.check_scaled_at(1000, ip(1), "/x", 10_000).is_ok());
    }
    let l = rl.check_scaled_at(1000, ip(1), "/x", 10_000).unwrap_err();
    assert_eq!(l.scope, "global");
    assert_eq!(l.path, "/x");
    assert!(rl.check_scaled_at(1000, ip(2), "/x", 10_000).is_ok());
    assert!(rl.check_scaled_at(1060, ip(1), "/x", 10_000).is_ok());
}

#[test]
fn a_scale_tightens_the_limit() {
    let mut rl = RateLimiter::new(&limits(10, 0)).unwrap();
    for _ in 0..5 {
        assert!(rl.check_scaled_at(1000, ip(1), "/x", 5_000).is_ok());
    }
    assert!(rl.check_scaled_at(1000, ip(1), "/x", 5_000).is_err());
}

#[test]
fn routes_have_their_own_limits() {
    let mut cfg = limits(1000, 0);
    cfg.routes.push(RouteRateLimit { pattern: "^/login".to_string(), requests_per_minute: 2, burst: 0 });
    let mut rl = RateLimiter::new(&cfg).unwrap();
    assert!(rl.check_scaled_at(1000, ip(1), "/login", 10_000).is_ok());
    assert!(rl.check_scaled_at(1000, ip(1), "/login", 10_000).is_ok());
    assert!(rl.check_scaled_at(1000, ip(1), "/login", 10_000).is_err());
    assert!(rl.check_scaled_at(1000, ip(1), "/other", 10_000).is_ok());
    cfg.routes.push(RouteRateLimit { pattern: "(".to_string(), requests_per_minute: 2, burst: 0 });
    assert!(RateLimiter::new(&cfg).is_err());
}

#[test]
fn a_limiter_that_is_off_limits_nothing() {
    let mut cfg = limits(1, 0);
    cfg.enabled = false;
    let mut rl = RateLimiter::new(&cfg).unwrap();
    for _ in 0..100 {
        assert!(rl.check_scaled_at(1000, ip(1), "/x", 10_000).is_ok());
    }
}

#[test]
fn old_counters_are_swept() {
    let mut rl = RateLimiter::new(&limits(1, 0)).unwrap();
    assert!(rl.check_scaled_at(1000, ip(1), "/x", 10_000).is_ok());
    rl.gc_at(1010, 120);
    assert!(rl.check_scaled_at(1010, ip(1), "/x", 10_000).is_err());
    rl.gc_at(2000, 120);
    assert!(rl.check_scaled_at(2000, ip(1), "/x", 10_000).is_ok());
}

fn lists(allow: &[&str], deny: &[&str], hits: u32) -> ReputationCfg {
    ReputationCfg {
        allow_cidrs: allow.iter().map(|s| s.to_string()).collect(),
        deny_cidrs: deny.iter().map(|s| s.to_string()).collect(),
        auto_ban_threshold_hits: hits,
        auto_ban_window_secs: 60,
        auto_ban_duration_secs: 60,
    }
}

#[test]
fn deny_cidr_classifies() {
    let r = Reputations::new(&lists(&[], &["10.0.0.0/8"], 5)).unwrap();
    assert_eq!(r.classify(addr("10.1.2.3")), Reputation::Deny);
    assert_eq!(r.classify(addr("8.8.8.8")), Reputation::Unknown);
}

#[test]
fn auto_ban_kicks_in() {
    let mut r = Reputations::new(&lists(&[], &[], 3)).unwrap();
    let ip = addr("1.2.3.4");
    assert!(!r.record_offence(ip));
    assert!(!r.record_offence(ip));
    assert!(r.record_offence(ip));
    assert!(r.is_banned(ip));
}

#[test]
fn bans_end_and_can_be_lifted() {
    let mut r = Reputations::new(&lists(&["9.9.9.9"], &[], 2)).unwrap();
    assert!(!r.record_offence_at(1000, ip(1)));
    assert!(r.record_offence_at(1001, ip(1)));
    assert!(r.is_banned_at(1060, ip(1)));
    assert!(!r.is_banned_at(1061, ip(1)));
    assert_eq!(r.banned_at(1011), vec![(ip(1), 50)]);
    assert!(r.take_unsaved());
    r.unban(ip(77));
    assert!(!r.take_unsaved());
    r.unban(ip(1));
    assert!(r.take_unsaved());
    assert!(!r.is_banned_at(1002, ip(1)));
    assert!(r.dump_at(1002).is_empty());
    assert!(!r.force_ban_at(1000, addr("9.9.9.9"), 60));
    assert!(r.force_ban_at(1000, ip(2), 60));
    assert_eq!(r.classify_at(1059, ip(2)), Reputation::Deny);
    assert_eq!(r.classify_at(1060, ip(2)), Reputation::Unknown);
    assert!(r.take_unsaved());
    assert!(!r.take_unsaved());
}

#[test]
fn offences_outside_the_window_do_not_add_up() {
    let mut r = Reputations::new(&lists(&[], &[], 2)).unwrap();
    assert!(!r.record_offence_at(1000, ip(1)));
    assert!(!r.record_offence_at(1061, ip(1)));
    assert!(r.record_offence_at(1062, ip(1)));
}

#[test]
fn bans_survive_a_restart() {
    let mut r = Reputations::new(&lists(&[], &[], 1)).unwrap();
    assert!(r.record_offence_at(1000, ip(1)));
    let dumped = r.dump_at(1010);
    assert_eq!(dumped.len(), 1);
    assert_eq!(dumped[0].ip, ip(1));
    assert_eq!(dumped[0].ban_until, 1060);
    let mut fresh = Reputations::new(&lists(&[], &[], 1)).unwrap();
    fresh.load_bans_at(1020, &dumped);
    assert!(fresh.is_banned_at(1059, ip(1)));
    assert!(!fresh.is_banned_at(1060, ip(1)));
    let mut late = Reputations::new(&lists(&[], &[], 1)).unwrap();
    late.load_bans_at(2000, &dumped);
    assert!(late.banned_at(2000).is_empty());
}

#[test]
fn a_list_that_holds_no_network_is_refused() {
    let e = Reputations::new(&lists(&["10.0.0.0/8", "nonsense"], &[], 1)).err().unwrap();
    assert_eq!(e.message, "allow nonsense: invalid IP address syntax");
    let e = Reputations::new(&lists(&[], &["1.2.3.4/99"], 1)).err().unwrap();
    assert_eq!(e.message, "deny 1.2.3.4/99: invalid IP address syntax");
}

#[test]
fn the_allow_list_goes_first() {
    let r = Reputations::new(&lists(&["10.1.0.0/16"], &["10.0.0.0/8"], 5)).unwrap();
    assert_eq!(r.classify(addr("10.1.2.3")), Reputation::Allow);
    assert_eq!(r.classify(addr("10.2.2.3")), Reputation::Deny);
}

#[test]
fn cidr_parse_bare_ip() {
    let n = parse_net("8.8.8.8").unwrap();
    assert_eq!(n.prefix_len(), 32);
    let n = parse_net("10.0.0.0/24").unwrap();
    assert_eq!(n.prefix_len(), 24);
}

#[test]
fn networks_are_written_and_read_back() {
    for s in ["10.0.0.0/24", "2001:db8::/32", "::1/128", "0.0.0.0/0"] {
        let n = parse_net(s).unwrap();
        assert_eq!(n.to_text(), s);
    }
    for s in ["::ffff:1.2.3.4/128", "2001:db8:0:0:1::/80", "1.2.3.4/32"] {
        let n = parse_net(s).unwrap();
        assert_eq!(parse_net(&n.to_text()).unwrap(), n);
    }
    let n = parse_net("2001:db8::/32").unwrap();
    assert!(n.contains(&addr("2001:db8:1::5")));
    assert!(!n.contains(&addr("2001:db9::5")));
    assert!(!n.contains(&addr("1.2.3.4")));
    assert_eq!(parse_net("::1").unwrap().prefix_len(), 128);
    assert_eq!(parse_net("1.2.3").err().unwrap().message, "1.2.3: invalid IP address syntax");
    assert_eq!(addr("2001:DB8:0:0:0:0:0:1").to_text(), "2001:db8::1");
    assert_eq!(addr("1.2.3.4").to_text(), "1.2.3.4");
    assert!(parse_ip("1.2.3.4/32").is_none());
}

#[test]
fn same_24_collides() {
    assert_eq!(subnet_key(IpAddr::v4(1, 2, 3, 4)), subnet_key(IpAddr::v4(1, 2, 3, 250)));
    assert_ne!(subnet_key(IpAddr::v4(1, 2, 3, 4)), subnet_key(IpAddr::v4(1, 2, 4, 4)));
}

#[test]
fn markers_follow_the_network() {
    assert_eq!(subnet_marker(addr("1.2.3.4")), subnet_marker(addr("1.2.3.5")));
    assert_ne!(subnet_marker(addr("1.2.3.4")), subnet_marker(addr("1.2.4.4")));
    assert_eq!(subnet_marker(addr("2001:db8::1")), subnet_marker(addr("2001:db8::ffff")));
}

#[test]
fn rpm_cap_triggers() {
    let mut s = SubnetTracker::default();
    let ip = addr("203.0.113.10");
    let mut tripped = false;
    for _ in 0..50 {
        let r = s.observe(ip, 30, 0);
        if !r.is_empty() {
            tripped = true;
            break;
        }
    }
    assert!(tripped);
}

#[test]
fn a_network_has_a_cap_of_requests_in_flight() {
    let mut s = SubnetTracker::new();
    for n in 0..5 {
        s.inc_inflight(ip(n));
    }
    let r = s.observe_at(1000, ip(9), 0, 4);
    assert!(fired(&r, "SUBNET-CONN"));
    s.dec_inflight(ip(0));
    assert!(s.observe_at(1000, ip(9), 0, 4).is_empty());
    assert_eq!(s.tracked_networks(), 1);
}

#[test]
fn a_window_forgets_after_a_minute() {
    let mut c = Counter::new();
    assert_eq!(c.hit(1000), 1);
    assert_eq!(c.hit(1001), 2);
    assert_eq!(c.hit(1030), 3);
    assert_eq!(c.hit(1061), 2);
    assert_eq!(c.hit(2000), 1);
    assert_eq!(c.current(), 1);
}

#[test]
fn replays_are_counted() {
    let mut r = RequestReplay::new();
    let mut hits = 0;
    for _ in 0..30 {
        if r.observe_at(1000, ip(1), "GET", "/x", "ua").is_some() {
            hits += 1;
        }
    }
    assert!(hits > 0);
    let mut r = RequestReplay::new();
    for i in 0..30 {
        assert!(r.observe_at(1000, ip(1), "GET", &format!("/{i}"), "ua").is_none());
    }
}

#[test]
fn replays_are_counted_among_other_requests() {
    let mut r = RequestReplay::default();
    for i in 0..50u64 {
        let path = if i % 2 == 0 { "/a" } else { "/b" };
        let out = r.observe_at(1000 + i / 2, IpAddr::v4(1, 2, 3, 4), "GET", path, "u");
        match out {
            Some(x) => {
                assert!(i >= 48);
                assert_eq!((x.rule_id.as_str(), x.score), ("REPLAY", 60));
                assert_eq!(x.detail, "25 repeats of same signature in 30s");
            }
            None => assert!(i < 48),
        }
    }
    assert!(r.observe_at(1020, IpAddr::v4(1, 2, 3, 5), "GET", "/a", "u").is_none());
    assert!(r.observe_at(1024 + 31, IpAddr::v4(1, 2, 3, 4), "GET", "/a", "u").is_none());
}

#[test]
fn addresses_of_two_windows_are_not_added() {
    let mut d = DistributedUa::new();
    for n in 0..7 {
        assert!(d.observe_at(1050, IpAddr::v4(n, 0, 0, 1), "bot").is_none());
    }
    assert!(d.observe_at(1111, IpAddr::v4(8, 0, 0, 1), "bot").is_none());
    let mut d = DistributedUa::new();
    d.observe_at(1000, IpAddr::v4(100, 0, 0, 1), "bot");
    for n in 0..7 {
        assert!(d.observe_at(1050, IpAddr::v4(n, 0, 0, 1), "bot").is_none() == (n < 6));
    }
    let r = d.observe_at(1061, IpAddr::v4(9, 0, 0, 1), "bot").unwrap();
    assert_eq!(r.detail, "UA shared by 8 distinct IPs in 60s");
}

#[test]
fn recent_events_are_exact() {
    let mut r = Recent::new();
    r.hit(1000, 30);
    r.hit(1000, 30);
    r.hit(1030, 30);
    assert_eq!(r.count(), 3);
    r.hit(1031, 30);
    assert_eq!(r.count(), 2);
    assert!(r.lively(1061, 30) && !r.lively(1062, 30));
    r.forget(1062, 30);
    assert_eq!(r.count(), 0);
}

#[test]
fn the_first_route_that_fails_is_named() {
    let mut cfg = limits(10, 0);
    for p in ["^/a", "(", "["] {
        cfg.routes.push(RouteRateLimit { pattern: p.into(), requests_per_minute: 1, burst: 0 });
    }
    let fault = regex::RegexSet::new(["("]).unwrap_err().to_string();
    let e = RateLimiter::new(&cfg).err().unwrap();
    assert_eq!(e.message, format!("rate_limit.routes pattern \"(\": {fault}"));
    let outcomes = vec![regex::RegexSet::new(["^/a"]), regex::RegexSet::new(["("]), regex::RegexSet::new(["["])];
    assert_eq!(RateLimiter::of_outcomes(&cfg, outcomes).err().unwrap().message, e.message);
}

#[test]
fn a_shared_ua_needs_many_addresses() {
    let mut d = DistributedUa::new();
    for n in 0..7 {
        assert!(d.observe_at(1000, IpAddr::v4(n, 0, 0, 1), "bot").is_none());
    }
    for n in 7..20 {
        let r = d.observe_at(1000, IpAddr::v4(n, 0, 0, 1), "bot");
        if n > 10 {
            assert_eq!(r.unwrap().score, 50);
        }
    }
    assert!(d.observe_at(1000, IpAddr::v4(99, 0, 0, 1), "other").is_none());
}

#[test]
fn bots_are_looked_up() {
    let ua = "Mozilla/5.0 (compatible; Googlebot/2.1)";
    let me = addr("66.249.66.1");
    assert_eq!(find_bot(ua), 0);
    assert_eq!(find_bot("Mozilla/5.0"), BOT_COUNT);
    assert!(is_vendor_name(0, "crawl-66-249-66-1.googlebot.com"));
    assert!(is_vendor_name(0, "a.google.com"));
    assert!(!is_vendor_name(0, "googlebot.com.evil.example"));
    let mut g = GoodBotVerifier::new();
    assert!(matches!(g.classify_at(1000, me, "Mozilla/5.0"), Verdict::NotABot));
    assert!(matches!(g.classify_at(1000, me, ua), Verdict::GoodBotPending));
    assert!(matches!(g.classify_at(1001, me, ua), Verdict::GoodBotPending));
    let waiting = g.take_lookups();
    assert_eq!(waiting.len(), 1);
    assert!(g.take_lookups().is_empty());
    let l: Lookup = waiting[0];
    assert_eq!(l.ip, me);
    let good = judge_lookup(l, Some("crawl-66-249-66-1.googlebot.com".to_string()), Some(vec![me]));
    assert!(good.0);
    let bad = judge_lookup(l, Some("host.example".to_string()), Some(vec![me]));
    assert!(!bad.0);
    let elsewhere = judge_lookup(l, Some("x.googlebot.com".to_string()), Some(vec![addr("1.1.1.1")]));
    assert!(!elsewhere.0);
    assert!(!judge_lookup(l, None, None).0);
    g.complete_at(1001, l, Some(good));
    assert!(matches!(g.classify_at(1002, me, ua), Verdict::GoodBotVerified("Googlebot")));
    assert_eq!(g.snapshot_at(1002).len(), 1);
    assert!(matches!(g.classify_at(1001 + 3600, me, ua), Verdict::GoodBotPending));
    let l = g.take_lookups()[0];
    g.complete_at(5000, l, Some(bad));
    assert!(matches!(g.classify_at(5001, me, ua), Verdict::GoodBotSpoofed("Googlebot")));
}

#[test]
fn counts_rank_their_keys() {
    let mut c = Counts::new();
    for _ in 0..3 {
        c.bump("a");
    }
    c.bump("b");
    c.bump("c");
    c.bump("c");
    assert_eq!(c.len(), 3);
    assert_eq!(c.top(2), vec![("a".to_string(), 3), ("c".to_string(), 2)]);
    assert_eq!(c.top(9).len(), 3);
}

#[test]
fn counts_are_bounded() {
    let mut c = Counts::new();
    for i in 0..6000 {
        c.bump(&format!("k{i}"));
    }
    assert!(c.len() <= 4096);
}

#[test]
fn metrics_count_decisions() {
    let mut m = Metrics::new();
    m.record_at(1000, Action::Allow, "1.1.1.1", "/a", Some("DE"), None);
    m.record_at(1000, Action::Block, "1.1.1.1", "/b", None, Some("SQLI-01"));
    m.record_at(1001, Action::Tarpit, "2.2.2.2", "/b", None, Some("SQLI-01"));
    m.record_at(1001, Action::Challenge, "2.2.2.2", "/b", None, None);
    let s = m.snapshot();
    assert_eq!((s.allowed, s.blocked, s.tarpit, s.challenged), (1, 1, 1, 1));
    assert_eq!((s.unique_ips, s.unique_paths, s.unique_countries), (2, 2, 1));
    assert_eq!(s.top_paths[0], ("/b".to_string(), 3));
    assert_eq!(s.top_rules, vec![("SQLI-01".to_string(), 2)]);
    assert_eq!(s.ring.len(), 60);
    assert_eq!((s.ring[1000 % 60].allowed, s.ring[1000 % 60].blocked), (1, 1));
    assert_eq!((s.ring[1001 % 60].challenged, s.ring[1001 % 60].blocked), (1, 1));
}
