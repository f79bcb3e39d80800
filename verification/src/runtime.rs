//! The state that the dashboard can change at run time, over the baseline of the configuration.
//! What the dashboard changes is stored and survives a restart.

use crate::clock::now_nanos;
use crate::config::Config;
use crate::crypto::{self, seed, url64};
use crate::net::{self, parse_net, IpNet, NetError};
use crate::text::{self, copy_list, same_text, to_upper};
use vstd::prelude::*;

verus! {

/// Which rules are on.
#[derive(Debug, Clone, Copy, PartialEq, Eq, Structural)]
pub struct RuleToggles {
    pub sqli: bool,
    pub xss: bool,
    pub traversal: bool,
    pub cmdi: bool,
    pub lfi: bool,
    pub bot_ua: bool,
    pub rate_limit: bool,
}

/// Which defences are on.
#[derive(Debug, Clone, Copy, PartialEq, Eq, Structural)]
pub struct DefenseToggles {
    pub bot_score: bool,
    pub behavior: bool,
    pub ddos: bool,
    pub honeypots: bool,
    pub subnet: bool,
    pub replay: bool,
    pub dist_ua: bool,
    pub goodbot: bool,
    pub bic: bool,
    pub browser_integrity: bool,
}

#[derive(Debug, Clone, Copy, PartialEq, Eq, Structural)]
pub enum UamLevel {
    Off,
    Low,
    Medium,
    High,
    Extreme,
}

pub open spec fn level_of(n: u8) -> UamLevel {
    if n == 1 {
        UamLevel::Low
    } else if n == 2 {
        UamLevel::Medium
    } else if n == 3 {
        UamLevel::High
    } else if n == 4 {
        UamLevel::Extreme
    } else {
        UamLevel::Off
    }
}

pub open spec fn level_text(l: UamLevel) -> Seq<char> {
    match l {
        UamLevel::Off => "Off"@,
        UamLevel::Low => "Low"@,
        UamLevel::Medium => "Medium"@,
        UamLevel::High => "High"@,
        UamLevel::Extreme => "Extreme"@,
    }
}

impl UamLevel {
    pub fn from_u8(n: u8) -> (r: UamLevel)
        ensures
            r == level_of(n),
    {
        match n {
            1 => UamLevel::Low,
            2 => UamLevel::Medium,
            3 => UamLevel::High,
            4 => UamLevel::Extreme,
            _ => UamLevel::Off,
        }
    }

    pub fn name(&self) -> (r: &'static str)
        ensures
            r@ == level_text(*self),
    {
        match self {
            UamLevel::Off => "Off",
            UamLevel::Low => "Low",
            UamLevel::Medium => "Medium",
            UamLevel::High => "High",
            UamLevel::Extreme => "Extreme",
        }
    }
}

#[derive(Debug, Clone, Copy, PartialEq, Eq, Structural)]
pub enum ChallengeMode {
    Pow,
    Interactive,
    Combined,
}

pub open spec fn mode_of(n: u8) -> ChallengeMode {
    if n == 1 {
        ChallengeMode::Interactive
    } else if n == 2 {
        ChallengeMode::Combined
    } else {
        ChallengeMode::Pow
    }
}

impl ChallengeMode {
    pub fn from_u8(n: u8) -> (r: ChallengeMode)
        ensures
            r == mode_of(n),
    {
        match n {
            1 => ChallengeMode::Interactive,
            2 => ChallengeMode::Combined,
            _ => ChallengeMode::Pow,
        }
    }
}

#[derive(Debug)]
pub struct Runtime {
    pub under_attack: bool,
    /// 0 off, 1 low, 2 medium, 3 high, 4 extreme.
    pub uam_level: u8,
    /// 0 proof of work, 1 interactive, 2 combined.
    pub challenge_mode: u8,
    pub auto_uam_enabled: bool,
    /// Blocks per second from which the level is raised.
    pub auto_uam_threshold: u32,
    pub challenge_threshold: u32,
    pub block_threshold: u32,
    pub max_concurrent_per_ip: u32,
    pub rpm_under_attack_bps: u32,
    pub subnet_rpm: u32,
    pub subnet_conn: u32,
    /// The number of requests in flight from which new ones are turned away; zero for no bound.
    pub global_inflight_cap: u32,
    /// The score from which a block becomes a tarpit; zero for never.
    pub tarpit_score: u32,
    /// Whether requests from hosting networks are held against the client.
    pub datacenter_block: bool,
    /// Only clients that prove to be browsers get through.
    pub lockdown: bool,
    /// Whether the two highest levels bring a lockdown.
    pub auto_lockdown: bool,
    pub rules: RuleToggles,
    pub defenses: DefenseToggles,
    pub allow: Vec<IpNet>,
    pub deny: Vec<IpNet>,
    pub blocked_countries: Vec<String>,
    pub auth_token: String,
    pub turnstile_provider: String,
    pub turnstile_site_key: String,
    pub turnstile_secret: String,
    /// Whether something changed that has to be stored.
    pub unsaved: bool,
}

#[verifier::ext_equal]
pub struct RuntimeView {
    pub under_attack: bool,
    pub uam_level: u8,
    pub challenge_mode: u8,
    pub auto_uam_enabled: bool,
    pub auto_uam_threshold: u32,
    pub challenge_threshold: u32,
    pub block_threshold: u32,
    pub max_concurrent_per_ip: u32,
    pub rpm_under_attack_bps: u32,
    pub subnet_rpm: u32,
    pub subnet_conn: u32,
    pub global_inflight_cap: u32,
    pub tarpit_score: u32,
    pub datacenter_block: bool,
    pub lockdown: bool,
    pub auto_lockdown: bool,
    pub rules: RuleToggles,
    pub defenses: DefenseToggles,
    pub allow: Seq<IpNet>,
    pub deny: Seq<IpNet>,
    pub blocked_countries: Seq<Seq<char>>,
    pub auth_token: Seq<char>,
    pub turnstile_provider: Seq<char>,
    pub turnstile_site_key: Seq<char>,
    pub turnstile_secret: Seq<char>,
    pub unsaved: bool,
}

impl View for Runtime {
    type V = RuntimeView;

    open spec fn view(&self) -> RuntimeView {
        RuntimeView {
            under_attack: self.under_attack,
            uam_level: self.uam_level,
            challenge_mode: self.challenge_mode,
            auto_uam_enabled: self.auto_uam_enabled,
            auto_uam_threshold: self.auto_uam_threshold,
            challenge_threshold: self.challenge_threshold,
            block_threshold: self.block_threshold,
            max_concurrent_per_ip: self.max_concurrent_per_ip,
            rpm_under_attack_bps: self.rpm_under_attack_bps,
            subnet_rpm: self.subnet_rpm,
            subnet_conn: self.subnet_conn,
            global_inflight_cap: self.global_inflight_cap,
            tarpit_score: self.tarpit_score,
            datacenter_block: self.datacenter_block,
            lockdown: self.lockdown,
            auto_lockdown: self.auto_lockdown,
            rules: self.rules,
            defenses: self.defenses,
            allow: self.allow@,
            deny: self.deny@,
            blocked_countries: self.blocked_countries.deep_view(),
            auth_token: self.auth_token@,
            turnstile_provider: self.turnstile_provider@,
            turnstile_site_key: self.turnstile_site_key@,
            turnstile_secret: self.turnstile_secret@,
            unsaved: self.unsaved,
        }
    }
}

/// Stored rule toggles; what is missing keeps its value.
#[derive(Debug, Clone, Copy, PartialEq, Eq, Structural)]
pub struct PersistedToggles {
    pub sqli: Option<bool>,
    pub xss: Option<bool>,
    pub traversal: Option<bool>,
    pub cmdi: Option<bool>,
    pub lfi: Option<bool>,
    pub bot_ua: Option<bool>,
    pub rate_limit: Option<bool>,
}

/// Stored defence toggles; what is missing keeps its value.
#[derive(Debug, Clone, Copy, PartialEq, Eq, Structural)]
pub struct PersistedDefenses {
    pub bot_score: Option<bool>,
    pub behavior: Option<bool>,
    pub ddos: Option<bool>,
    pub honeypots: Option<bool>,
    pub subnet: Option<bool>,
    pub replay: Option<bool>,
    pub dist_ua: Option<bool>,
    pub goodbot: Option<bool>,
    pub bic: Option<bool>,
}

/// The stored form of the state.
#[derive(Debug)]
pub struct PersistedRuntime {
    pub under_attack: bool,
    pub uam_level: Option<u8>,
    pub challenge_mode: Option<u8>,
    pub auto_uam_enabled: Option<bool>,
    pub auto_uam_threshold: Option<u32>,
    pub challenge_threshold: Option<u32>,
    pub block_threshold: Option<u32>,
    pub max_concurrent_per_ip: Option<u32>,
    pub rpm_under_attack_bps: Option<u32>,
    pub subnet_rpm: Option<u32>,
    pub subnet_conn: Option<u32>,
    pub global_inflight_cap: Option<u32>,
    pub tarpit_score: Option<u32>,
    pub datacenter_block: Option<bool>,
    pub allow: Vec<String>,
    pub deny: Vec<String>,
    pub blocked_countries: Vec<String>,
    pub rules: PersistedToggles,
    pub defenses: PersistedDefenses,
    pub honeypot_paths: Option<Vec<String>>,
    pub auth_token: Option<String>,
    pub turnstile_provider: Option<String>,
    pub turnstile_site_key: Option<String>,
    pub turnstile_secret: Option<String>,
}

#[verifier::ext_equal]
pub struct PersistedView {
    pub under_attack: bool,
    pub uam_level: Option<u8>,
    pub challenge_mode: Option<u8>,
    pub auto_uam_enabled: Option<bool>,
    pub auto_uam_threshold: Option<u32>,
    pub challenge_threshold: Option<u32>,
    pub block_threshold: Option<u32>,
    pub max_concurrent_per_ip: Option<u32>,
    pub rpm_under_attack_bps: Option<u32>,
    pub subnet_rpm: Option<u32>,
    pub subnet_conn: Option<u32>,
    pub global_inflight_cap: Option<u32>,
    pub tarpit_score: Option<u32>,
    pub datacenter_block: Option<bool>,
    pub allow: Seq<Seq<char>>,
    pub deny: Seq<Seq<char>>,
    pub blocked_countries: Seq<Seq<char>>,
    pub rules: PersistedToggles,
    pub defenses: PersistedDefenses,
    pub honeypot_paths: Option<Seq<Seq<char>>>,
    pub auth_token: Option<Seq<char>>,
    pub turnstile_provider: Option<Seq<char>>,
    pub turnstile_site_key: Option<Seq<char>>,
    pub turnstile_secret: Option<Seq<char>>,
}

impl View for PersistedRuntime {
    type V = PersistedView;

    open spec fn view(&self) -> PersistedView {
        PersistedView {
            under_attack: self.under_attack,
            uam_level: self.uam_level,
            challenge_mode: self.challenge_mode,
            auto_uam_enabled: self.auto_uam_enabled,
            auto_uam_threshold: self.auto_uam_threshold,
            challenge_threshold: self.challenge_threshold,
            block_threshold: self.block_threshold,
            max_concurrent_per_ip: self.max_concurrent_per_ip,
            rpm_under_attack_bps: self.rpm_under_attack_bps,
            subnet_rpm: self.subnet_rpm,
            subnet_conn: self.subnet_conn,
            global_inflight_cap: self.global_inflight_cap,
            tarpit_score: self.tarpit_score,
            datacenter_block: self.datacenter_block,
            allow: self.allow.deep_view(),
            deny: self.deny.deep_view(),
            blocked_countries: self.blocked_countries.deep_view(),
            rules: self.rules,
            defenses: self.defenses,
            honeypot_paths: self.honeypot_paths.deep_view(),
            auth_token: self.auth_token.deep_view(),
            turnstile_provider: self.turnstile_provider.deep_view(),
            turnstile_site_key: self.turnstile_site_key.deep_view(),
            turnstile_secret: self.turnstile_secret.deep_view(),
        }
    }
}

/// The smaller of two numbers.
pub open spec fn at_most(n: u8, max: u8) -> u8 {
    if n < max {
        n
    } else {
        max
    }
}

pub open spec fn or_bool(o: Option<bool>, d: bool) -> bool {
    match o {
        Some(v) => v,
        None => d,
    }
}

pub open spec fn or_u32(o: Option<u32>, d: u32) -> u32 {
    match o {
        Some(v) => v,
        None => d,
    }
}

pub fn pick_bool(o: Option<bool>, d: bool) -> (r: bool)
    ensures
        r == or_bool(o, d),
{
    match o {
        Some(v) => v,
        None => d,
    }
}

pub fn pick_u32(o: Option<u32>, d: u32) -> (r: u32)
    ensures
        r == or_u32(o, d),
{
    match o {
        Some(v) => v,
        None => d,
    }
}

/// A text from an option; without one the old text stays.
pub open spec fn or_text(o: Option<Seq<char>>, d: Seq<char>) -> Seq<char> {
    match o {
        Some(t) => t,
        None => d,
    }
}

pub fn pick_text(o: &Option<String>, d: &String) -> (r: String)
    ensures
        r@ == or_text(o.deep_view(), d@),
{
    match o {
        Some(s) => s.clone(),
        None => d.clone(),
    }
}

/// A number from an option, kept at `max`; without one the old number stays.
pub open spec fn or_level(o: Option<u8>, d: u8, max: u8) -> u8 {
    match o {
        Some(v) => at_most(v, max),
        None => d,
    }
}

pub fn pick_level(o: Option<u8>, d: u8, max: u8) -> (r: u8)
    ensures
        r == or_level(o, d, max),
{
    match o {
        Some(v) => if v < max {
            v
        } else {
            max
        },
        None => d,
    }
}

/// The networks that a list names; what is no network is left out.
pub open spec fn nets_in(list: Seq<Seq<char>>) -> Seq<IpNet>
    decreases list.len(),
{
    if list.len() == 0 {
        seq![]
    } else {
        match net::parsed_net(list.last()) {
            Some(n) => nets_in(list.drop_last()).push(n),
            None => nets_in(list.drop_last()),
        }
    }
}

/// The texts of a list of networks.
pub open spec fn net_texts(nets: Seq<IpNet>) -> Seq<Seq<char>> {
    Seq::new(nets.len(), |i: int| nets[i].spec_text())
}

pub open spec fn nets_wf(nets: Seq<IpNet>) -> bool {
    forall|i: int| 0 <= i < nets.len() ==> (#[trigger] nets[i]).wf()
}

/// The texts of a list in upper case.
pub open spec fn upper_list(list: Seq<Seq<char>>) -> Seq<Seq<char>> {
    Seq::new(list.len(), |i: int| text::upper_text(list[i]))
}

/// The rule toggles after stored ones were taken over.
pub open spec fn merged_rules(p: PersistedToggles, v: RuleToggles) -> RuleToggles {
    RuleToggles {
        sqli: or_bool(p.sqli, v.sqli),
        xss: or_bool(p.xss, v.xss),
        traversal: or_bool(p.traversal, v.traversal),
        cmdi: or_bool(p.cmdi, v.cmdi),
        lfi: or_bool(p.lfi, v.lfi),
        bot_ua: or_bool(p.bot_ua, v.bot_ua),
        rate_limit: or_bool(p.rate_limit, v.rate_limit),
    }
}

pub fn merge_rules(p: &PersistedToggles, v: &RuleToggles) -> (r: RuleToggles)
    ensures
        r == merged_rules(*p, *v),
{
    RuleToggles {
        sqli: pick_bool(p.sqli, v.sqli),
        xss: pick_bool(p.xss, v.xss),
        traversal: pick_bool(p.traversal, v.traversal),
        cmdi: pick_bool(p.cmdi, v.cmdi),
        lfi: pick_bool(p.lfi, v.lfi),
        bot_ua: pick_bool(p.bot_ua, v.bot_ua),
        rate_limit: pick_bool(p.rate_limit, v.rate_limit),
    }
}

/// The defence toggles after stored ones were taken over.
pub open spec fn merged_defenses(p: PersistedDefenses, v: DefenseToggles) -> DefenseToggles {
    DefenseToggles {
        bot_score: or_bool(p.bot_score, v.bot_score),
        behavior: or_bool(p.behavior, v.behavior),
        ddos: or_bool(p.ddos, v.ddos),
        honeypots: or_bool(p.honeypots, v.honeypots),
        subnet: or_bool(p.subnet, v.subnet),
        replay: or_bool(p.replay, v.replay),
        dist_ua: or_bool(p.dist_ua, v.dist_ua),
        goodbot: or_bool(p.goodbot, v.goodbot),
        bic: or_bool(p.bic, v.bic),
        ..v
    }
}

pub fn merge_defenses(p: &PersistedDefenses, v: &DefenseToggles) -> (r: DefenseToggles)
    ensures
        r == merged_defenses(*p, *v),
{
    DefenseToggles {
        bot_score: pick_bool(p.bot_score, v.bot_score),
        behavior: pick_bool(p.behavior, v.behavior),
        ddos: pick_bool(p.ddos, v.ddos),
        honeypots: pick_bool(p.honeypots, v.honeypots),
        subnet: pick_bool(p.subnet, v.subnet),
        replay: pick_bool(p.replay, v.replay),
        dist_ua: pick_bool(p.dist_ua, v.dist_ua),
        goodbot: pick_bool(p.goodbot, v.goodbot),
        bic: pick_bool(p.bic, v.bic),
        browser_integrity: v.browser_integrity,
    }
}

/// The state after stored state was taken over.
pub open spec fn applied(v: RuntimeView, p: PersistedView) -> RuntimeView {
    RuntimeView {
        under_attack: p.under_attack,
        uam_level: or_level(p.uam_level, v.uam_level, 4),
        challenge_mode: or_level(p.challenge_mode, v.challenge_mode, 2),
        auto_uam_enabled: or_bool(p.auto_uam_enabled, v.auto_uam_enabled),
        auto_uam_threshold: or_u32(p.auto_uam_threshold, v.auto_uam_threshold),
        challenge_threshold: or_u32(p.challenge_threshold, v.challenge_threshold),
        block_threshold: or_u32(p.block_threshold, v.block_threshold),
        max_concurrent_per_ip: or_u32(p.max_concurrent_per_ip, v.max_concurrent_per_ip),
        rpm_under_attack_bps: or_u32(p.rpm_under_attack_bps, v.rpm_under_attack_bps),
        subnet_rpm: or_u32(p.subnet_rpm, v.subnet_rpm),
        subnet_conn: or_u32(p.subnet_conn, v.subnet_conn),
        global_inflight_cap: or_u32(p.global_inflight_cap, v.global_inflight_cap),
        tarpit_score: or_u32(p.tarpit_score, v.tarpit_score),
        datacenter_block: or_bool(p.datacenter_block, v.datacenter_block),
        rules: merged_rules(p.rules, v.rules),
        defenses: merged_defenses(p.defenses, v.defenses),
        allow: nets_in(p.allow),
        deny: nets_in(p.deny),
        blocked_countries: upper_list(p.blocked_countries),
        auth_token: match p.auth_token {
            Some(t) => if t.len() > 0 {
                t
            } else {
                v.auth_token
            },
            None => v.auth_token,
        },
        turnstile_provider: or_text(p.turnstile_provider, v.turnstile_provider),
        turnstile_site_key: or_text(p.turnstile_site_key, v.turnstile_site_key),
        turnstile_secret: or_text(p.turnstile_secret, v.turnstile_secret),
        ..v
    }
}

/// The state in the form in which it is shown. What is stored has the traps and the secret of the
/// captcha service in it as well.
pub open spec fn snapshot_of(v: RuntimeView) -> PersistedView {
    PersistedView {
        under_attack: v.under_attack,
        uam_level: Some(v.uam_level),
        challenge_mode: Some(v.challenge_mode),
        auto_uam_enabled: Some(v.auto_uam_enabled),
        auto_uam_threshold: Some(v.auto_uam_threshold),
        challenge_threshold: Some(v.challenge_threshold),
        block_threshold: Some(v.block_threshold),
        max_concurrent_per_ip: Some(v.max_concurrent_per_ip),
        rpm_under_attack_bps: Some(v.rpm_under_attack_bps),
        subnet_rpm: Some(v.subnet_rpm),
        subnet_conn: Some(v.subnet_conn),
        global_inflight_cap: Some(v.global_inflight_cap),
        tarpit_score: Some(v.tarpit_score),
        datacenter_block: Some(v.datacenter_block),
        allow: net_texts(v.allow),
        deny: net_texts(v.deny),
        blocked_countries: v.blocked_countries,
        rules: PersistedToggles {
            sqli: Some(v.rules.sqli),
            xss: Some(v.rules.xss),
            traversal: Some(v.rules.traversal),
            cmdi: Some(v.rules.cmdi),
            lfi: Some(v.rules.lfi),
            bot_ua: Some(v.rules.bot_ua),
            rate_limit: Some(v.rules.rate_limit),
        },
        defenses: PersistedDefenses {
            bot_score: Some(v.defenses.bot_score),
            behavior: Some(v.defenses.behavior),
            ddos: Some(v.defenses.ddos),
            honeypots: Some(v.defenses.honeypots),
            subnet: Some(v.defenses.subnet),
            replay: Some(v.defenses.replay),
            dist_ua: Some(v.defenses.dist_ua),
            goodbot: Some(v.defenses.goodbot),
            bic: Some(v.defenses.bic),
        },
        honeypot_paths: None,
        auth_token: Some(v.auth_token),
        turnstile_provider: Some(v.turnstile_provider),
        turnstile_site_key: Some(v.turnstile_site_key),
        turnstile_secret: None,
    }
}

/// Whether a stored form is that of a state, with any traps and any secret.
pub open spec fn stores(p: PersistedView, v: RuntimeView) -> bool {
    p == (PersistedView {
        honeypot_paths: p.honeypot_paths,
        turnstile_secret: p.turnstile_secret,
        ..snapshot_of(v)
    })
}

/// Whether a state that was stored is there again in `now`: every stored value is the same, the
/// countries in upper case. The level and the mode are within their bounds.
pub open spec fn restored(stored: RuntimeView, now: RuntimeView) -> bool {
    &&& now.under_attack == stored.under_attack
    &&& stored.uam_level <= 4 ==> now.uam_level == stored.uam_level
    &&& stored.challenge_mode <= 2 ==> now.challenge_mode == stored.challenge_mode
    &&& now.auto_uam_enabled == stored.auto_uam_enabled
    &&& now.auto_uam_threshold == stored.auto_uam_threshold
    &&& now.challenge_threshold == stored.challenge_threshold
    &&& now.block_threshold == stored.block_threshold
    &&& now.max_concurrent_per_ip == stored.max_concurrent_per_ip
    &&& now.rpm_under_attack_bps == stored.rpm_under_attack_bps
    &&& now.subnet_rpm == stored.subnet_rpm
    &&& now.subnet_conn == stored.subnet_conn
    &&& now.global_inflight_cap == stored.global_inflight_cap
    &&& now.tarpit_score == stored.tarpit_score
    &&& now.datacenter_block == stored.datacenter_block
    &&& now.rules == stored.rules
    &&& now.defenses.bot_score == stored.defenses.bot_score
    &&& now.defenses.behavior == stored.defenses.behavior
    &&& now.defenses.ddos == stored.defenses.ddos
    &&& now.defenses.honeypots == stored.defenses.honeypots
    &&& now.defenses.subnet == stored.defenses.subnet
    &&& now.defenses.replay == stored.defenses.replay
    &&& now.defenses.dist_ua == stored.defenses.dist_ua
    &&& now.defenses.goodbot == stored.defenses.goodbot
    &&& now.defenses.bic == stored.defenses.bic
    &&& now.allow == stored.allow
    &&& now.deny == stored.deny
    &&& now.blocked_countries == upper_list(stored.blocked_countries)
    &&& stored.auth_token.len() > 0 ==> now.auth_token == stored.auth_token
    &&& now.turnstile_provider == stored.turnstile_provider
    &&& now.turnstile_site_key == stored.turnstile_site_key
}

proof fn lemma_restored(stored: RuntimeView, v: RuntimeView, p: PersistedView)
    requires
        stores(p, stored),
        nets_in(p.allow) == stored.allow,
        nets_in(p.deny) == stored.deny,
    ensures
        restored(stored, applied(v, p)),
{
}

/// The token that is made out of a time and of what else tells two processes apart.
pub open spec fn token_text(nanos: u128, salt: Seq<u8>) -> Seq<char> {
    crypto::url64_text(crypto::seed_digest(nanos, salt))
}

/// The bearer token of the dashboard for a given time.
pub fn generate_token_at(nanos: u128, salt: &[u8]) -> (r: String)
    ensures
        r@ == token_text(nanos, salt@),
{
    url64(seed(nanos, salt).as_slice())
}

/// A new bearer token for the dashboard.
pub fn generate_token(salt: &[u8]) -> (r: String)
    ensures
        exists|nanos: u128| r@ == #[trigger] token_text(nanos, salt@),
{
    generate_token_at(now_nanos(), salt)
}

/// The state at the start, with a given token.
pub open spec fn initial(cfg: Config, token: Seq<char>) -> RuntimeView {
    RuntimeView {
        under_attack: false,
        uam_level: 0,
        challenge_mode: 0,
        auto_uam_enabled: false,
        auto_uam_threshold: 50,
        challenge_threshold: cfg.detection.challenge_threshold,
        block_threshold: cfg.detection.block_threshold,
        max_concurrent_per_ip: 200,
        rpm_under_attack_bps: 2000,
        subnet_rpm: 2400,
        subnet_conn: 800,
        global_inflight_cap: 20_000,
        tarpit_score: 150,
        datacenter_block: false,
        lockdown: false,
        auto_lockdown: false,
        rules: RuleToggles {
            sqli: cfg.detection.sqli,
            xss: cfg.detection.xss,
            traversal: cfg.detection.traversal,
            cmdi: cfg.detection.cmdi,
            lfi: cfg.detection.lfi,
            bot_ua: true,
            rate_limit: cfg.rate_limit.enabled,
        },
        defenses: DefenseToggles {
            bot_score: true,
            behavior: true,
            ddos: true,
            honeypots: true,
            subnet: true,
            replay: true,
            dist_ua: true,
            goodbot: true,
            bic: true,
            browser_integrity: true,
        },
        allow: seq![],
        deny: seq![],
        blocked_countries: cfg.geoip.block_countries.deep_view(),
        auth_token: token,
        turnstile_provider: seq![],
        turnstile_site_key: seq![],
        turnstile_secret: seq![],
        unsaved: false,
    }
}

/// Whether only clients that prove to be browsers get through.
pub open spec fn locked_down(v: RuntimeView) -> bool {
    v.lockdown || (v.auto_lockdown && (level_of(v.uam_level) == UamLevel::High || level_of(v.uam_level)
        == UamLevel::Extreme))
}

/// The list with a network added, unless it holds it.
pub open spec fn with_net(list: Seq<IpNet>, n: IpNet) -> Seq<IpNet> {
    if list.contains(n) {
        list
    } else {
        list.push(n)
    }
}

/// The list without a network.
pub open spec fn without_net(list: Seq<IpNet>, n: IpNet) -> Seq<IpNet>
    decreases list.len(),
{
    if list.len() == 0 {
        seq![]
    } else if list.last() == n {
        without_net(list.drop_last(), n)
    } else {
        without_net(list.drop_last(), n).push(list.last())
    }
}

/// A network that was added covers its addresses; one that was removed is gone, and every other
/// network of the list stays.
pub proof fn lemma_net_lists(list: Seq<IpNet>, n: IpNet, other: IpNet)
    ensures
        with_net(list, n).contains(n),
        list.contains(other) ==> with_net(list, n).contains(other),
        !without_net(list, n).contains(n),
        other != n ==> (without_net(list, n).contains(other) <==> list.contains(other)),
    decreases list.len(),
{
    if list.contains(other) {
        let i = choose|i: int| 0 <= i < list.len() && list[i] == other;
        assert(with_net(list, n)[i] == other);
    }
    if !list.contains(n) {
        assert(with_net(list, n)[list.len() as int] == n);
    }
    if list.len() > 0 {
        let rest = list.drop_last();
        let r = without_net(list, n);
        lemma_net_lists(rest, n, other);
        assert(list =~= rest.push(list.last()));
        assert(list.contains(other) <==> rest.contains(other) || list.last() == other) by {
            if rest.contains(other) {
                let i = choose|i: int| 0 <= i < rest.len() && rest[i] == other;
                assert(list[i] == other);
            }
            if list.last() == other {
                assert(list[list.len() - 1] == other);
            }
            if list.contains(other) {
                let i = choose|i: int| 0 <= i < list.len() && list[i] == other;
                if i < rest.len() {
                    assert(rest[i] == other);
                }
            }
        }
        if list.last() != n {
            let b = without_net(rest, n);
            assert forall|x: IpNet| r.contains(x) <==> b.contains(x) || x == list.last() by {
                if b.contains(x) {
                    let i = choose|i: int| 0 <= i < b.len() && b[i] == x;
                    assert(r[i] == x);
                }
                if x == list.last() {
                    assert(r[b.len() as int] == x);
                }
                if r.contains(x) {
                    let i = choose|i: int| 0 <= i < r.len() && r[i] == x;
                    if i < b.len() {
                        assert(b[i] == x);
                    }
                }
            }
        }
    }
}

fn holds(list: &Vec<IpNet>, n: IpNet) -> (r: bool)
    ensures
        r == list@.contains(n),
{
    let mut i: usize = 0;
    while i < list.len()
        invariant
            i <= list@.len(),
            forall|j: int| 0 <= j < i ==> list@[j] != n,
        decreases list@.len() - i,
    {
        if list[i] == n {
            return true;
        }
        i += 1;
    }
    false
}

fn add_net(list: &mut Vec<IpNet>, n: IpNet)
    ensures
        final(list)@ == with_net(old(list)@, n),
{
    if !holds(list, n) {
        list.push(n);
    }
}

fn drop_net(list: &Vec<IpNet>, n: IpNet) -> (r: Vec<IpNet>)
    ensures
        r@ == without_net(list@, n),
{
    let mut out: Vec<IpNet> = Vec::new();
    for i in 0..list.len()
        invariant
            out@ == without_net(list@.take(i as int), n),
    {
        proof {
            assert(list@.take(i + 1).drop_last() =~= list@.take(i as int));
            assert(list@.take(i + 1).last() == list@[i as int]);
        }
        if list[i] != n {
            out.push(list[i]);
        }
    }
    assert(list@.take(list@.len() as int) =~= list@);
    out
}

proof fn lemma_nets_read_back(texts: Seq<Seq<char>>, nets: Seq<IpNet>)
    requires
        texts == net_texts(nets),
        forall|i: int| 0 <= i < nets.len() ==> net::parsed_net(#[trigger] texts[i]) == Some(nets[i]),
    ensures
        nets_in(texts) == nets,
    decreases nets.len(),
{
    if nets.len() > 0 {
        let t = texts.drop_last();
        let n = nets.drop_last();
        assert(t =~= net_texts(n));
        assert forall|i: int| 0 <= i < n.len() implies net::parsed_net(#[trigger] t[i]) == Some(n[i]) by {
            assert(t[i] == texts[i]);
        }
        lemma_nets_read_back(t, n);
        assert(texts.last() == texts[nets.len() - 1]);
        assert(nets =~= n.push(nets.last()));
    } else {
        assert(nets_in(texts) =~= nets);
    }
}

/// Reads the networks of a list. The texts of networks are read as these networks.
fn read_nets(list: &Vec<String>) -> (r: Vec<IpNet>)
    ensures
        r@ == nets_in(list.deep_view()),
        nets_wf(r@),
        forall|nets: Seq<IpNet>|
            nets_wf(nets) && list.deep_view() == #[trigger] net_texts(nets) ==> r@ == nets,
{
    let mut out: Vec<IpNet> = Vec::new();
    let ghost all = list.deep_view();
    assert(out@ =~= nets_in(all.take(0)));
    for i in 0..list.len()
        invariant
            all == list.deep_view(),
            nets_wf(out@),
            out@ == nets_in(all.take(i as int)),
            forall|j: int, n: IpNet|
                0 <= j < i && n.wf() && all[j] == #[trigger] n.spec_text() ==> net::parsed_net(#[trigger] all[j]) == Some(
                    n,
                ),
    {
        proof {
            assert(all.take(i + 1).drop_last() =~= all.take(i as int));
            assert(all.take(i + 1).last() == list@[i as int]@);
        }
        match parse_net(list[i].as_str()) {
            Ok(n) => {
                out.push(n);
            },
            Err(_) => {},
        }
    }
    assert(all.take(all.len() as int) =~= all);
    proof {
        assert forall|nets: Seq<IpNet>| nets_wf(nets) && all == #[trigger] net_texts(nets) implies out@ == nets by {
            assert forall|i: int| 0 <= i < nets.len() implies net::parsed_net(#[trigger] all[i]) == Some(nets[i]) by {
                assert(nets[i].wf());
                assert(all[i] == nets[i].spec_text());
            }
            lemma_nets_read_back(all, nets);
        }
    }
    out
}

fn write_nets(nets: &Vec<IpNet>) -> (r: Vec<String>)
    ensures
        r.deep_view() == net_texts(nets@),
{
    let mut out: Vec<String> = Vec::new();
    for i in 0..nets.len()
        invariant
            out@.len() == i,
            forall|j: int| 0 <= j < i ==> (#[trigger] out@[j])@ == nets@[j].spec_text(),
    {
        out.push(nets[i].to_text());
    }
    assert(out.deep_view() =~= net_texts(nets@));
    out
}

/// The texts of a list in upper case.
pub fn to_upper_list(list: &Vec<String>) -> (r: Vec<String>)
    ensures
        r.deep_view() == upper_list(list.deep_view()),
{
    let mut out: Vec<String> = Vec::new();
    for i in 0..list.len()
        invariant
            out@.len() == i,
            forall|j: int| 0 <= j < i ==> (#[trigger] out@[j])@ == text::upper_text(list@[j]@),
    {
        out.push(to_upper(list[i].as_str()));
    }
    assert(out.deep_view() =~= upper_list(list.deep_view()));
    out
}

impl Runtime {
    /// The lists hold networks only.
    pub open spec fn wf(&self) -> bool {
        nets_wf(self.allow@) && nets_wf(self.deny@)
    }

    /// The state at the start, with a given token.
    pub fn with_token(cfg: &Config, token: String) -> (r: Runtime)
        ensures
            r.wf(),
            r@ == initial(*cfg, token@),
    {
        let r = Runtime {
            under_attack: false,
            uam_level: 0,
            challenge_mode: 0,
            auto_uam_enabled: false,
            auto_uam_threshold: 50,
            challenge_threshold: cfg.detection.challenge_threshold,
            block_threshold: cfg.detection.block_threshold,
            max_concurrent_per_ip: 200,
            rpm_under_attack_bps: 2000,
            subnet_rpm: 2400,
            subnet_conn: 800,
            global_inflight_cap: 20_000,
            tarpit_score: 150,
            datacenter_block: false,
            lockdown: false,
            auto_lockdown: false,
            rules: RuleToggles {
                sqli: cfg.detection.sqli,
                xss: cfg.detection.xss,
                traversal: cfg.detection.traversal,
                cmdi: cfg.detection.cmdi,
                lfi: cfg.detection.lfi,
                bot_ua: true,
                rate_limit: cfg.rate_limit.enabled,
            },
            defenses: DefenseToggles {
                bot_score: true,
                behavior: true,
                ddos: true,
                honeypots: true,
                subnet: true,
                replay: true,
                dist_ua: true,
                goodbot: true,
                bic: true,
                browser_integrity: true,
            },
            allow: Vec::new(),
            deny: Vec::new(),
            blocked_countries: copy_list(&cfg.geoip.block_countries),
            auth_token: token,
            turnstile_provider: String::new(),
            turnstile_site_key: String::new(),
            turnstile_secret: String::new(),
            unsaved: false,
        };
        assert(r@ =~= initial(*cfg, token@));
        r
    }

    /// The state at the start, with a new token.
    pub fn from_config(cfg: &Config, salt: &[u8]) -> (r: Runtime)
        ensures
            r.wf(),
            exists|nanos: u128| r@ == initial(*cfg, #[trigger] token_text(nanos, salt@)),
    {
        Runtime::with_token(cfg, generate_token(salt))
    }

    pub fn uam(&self) -> (r: UamLevel)
        ensures
            r == level_of(self.uam_level),
    {
        UamLevel::from_u8(self.uam_level)
    }

    pub fn challenge_mode_v(&self) -> (r: ChallengeMode)
        ensures
            r == mode_of(self.challenge_mode),
    {
        ChallengeMode::from_u8(self.challenge_mode)
    }

    pub fn lockdown_active(&self) -> (r: bool)
        ensures
            r == locked_down(self@),
    {
        self.lockdown || (self.auto_lockdown && match self.uam() {
            UamLevel::High | UamLevel::Extreme => true,
            _ => false,
        })
    }

    /// Takes over stored state. What the stored form of any state holds is there again afterwards.
    pub fn apply_persisted(&mut self, p: &PersistedRuntime)
        requires
            old(self).wf(),
        ensures
            final(self).wf(),
            final(self)@ == applied(old(self)@, p@),
            forall|stored: RuntimeView|
                nets_wf(stored.allow) && nets_wf(stored.deny) && #[trigger] stores(p@, stored) ==> restored(
                    stored,
                    final(self)@,
                ),
    {
        proof {
            reveal_strlit("");
        }
        let ghost allow_texts = p@.allow;
        let ghost deny_texts = p@.deny;
        let allow = read_nets(&p.allow);
        let deny = read_nets(&p.deny);
        self.under_attack = p.under_attack;
        self.uam_level = pick_level(p.uam_level, self.uam_level, 4);
        self.challenge_mode = pick_level(p.challenge_mode, self.challenge_mode, 2);
        self.auto_uam_enabled = pick_bool(p.auto_uam_enabled, self.auto_uam_enabled);
        self.auto_uam_threshold = pick_u32(p.auto_uam_threshold, self.auto_uam_threshold);
        self.challenge_threshold = pick_u32(p.challenge_threshold, self.challenge_threshold);
        self.block_threshold = pick_u32(p.block_threshold, self.block_threshold);
        self.max_concurrent_per_ip = pick_u32(p.max_concurrent_per_ip, self.max_concurrent_per_ip);
        self.rpm_under_attack_bps = pick_u32(p.rpm_under_attack_bps, self.rpm_under_attack_bps);
        self.subnet_rpm = pick_u32(p.subnet_rpm, self.subnet_rpm);
        self.subnet_conn = pick_u32(p.subnet_conn, self.subnet_conn);
        self.global_inflight_cap = pick_u32(p.global_inflight_cap, self.global_inflight_cap);
        self.tarpit_score = pick_u32(p.tarpit_score, self.tarpit_score);
        self.datacenter_block = pick_bool(p.datacenter_block, self.datacenter_block);
        self.rules = merge_rules(&p.rules, &self.rules);
        self.defenses = merge_defenses(&p.defenses, &self.defenses);
        self.allow = allow;
        self.deny = deny;
        self.blocked_countries = to_upper_list(&p.blocked_countries);
        if let Some(t) = &p.auth_token {
            assert(t@.len() == 0 ==> t@ =~= ""@);
            if !same_text(t.as_str(), "") {
                self.auth_token = t.clone();
            }
        }
        self.turnstile_provider = pick_text(&p.turnstile_provider, &self.turnstile_provider);
        self.turnstile_site_key = pick_text(&p.turnstile_site_key, &self.turnstile_site_key);
        self.turnstile_secret = pick_text(&p.turnstile_secret, &self.turnstile_secret);
        assert(self@ =~= applied(old(self)@, p@));
        assert forall|stored: RuntimeView|
            nets_wf(stored.allow) && nets_wf(stored.deny) && #[trigger] stores(p@, stored) implies restored(
            stored,
            self@,
        ) by {
            assert(allow_texts == net_texts(stored.allow));
            assert(deny_texts == net_texts(stored.deny));
            lemma_restored(stored, old(self)@, p@);
        }
    }

    /// The state in the form in which it is shown.
    pub fn snapshot(&self) -> (r: PersistedRuntime)
        ensures
            r@ == snapshot_of(self@),
    {
        let r = PersistedRuntime {
            under_attack: self.under_attack,
            uam_level: Some(self.uam_level),
            challenge_mode: Some(self.challenge_mode),
            auto_uam_enabled: Some(self.auto_uam_enabled),
            auto_uam_threshold: Some(self.auto_uam_threshold),
            challenge_threshold: Some(self.challenge_threshold),
            block_threshold: Some(self.block_threshold),
            max_concurrent_per_ip: Some(self.max_concurrent_per_ip),
            rpm_under_attack_bps: Some(self.rpm_under_attack_bps),
            subnet_rpm: Some(self.subnet_rpm),
            subnet_conn: Some(self.subnet_conn),
            global_inflight_cap: Some(self.global_inflight_cap),
            tarpit_score: Some(self.tarpit_score),
            datacenter_block: Some(self.datacenter_block),
            allow: write_nets(&self.allow),
            deny: write_nets(&self.deny),
            blocked_countries: copy_list(&self.blocked_countries),
            rules: PersistedToggles {
                sqli: Some(self.rules.sqli),
                xss: Some(self.rules.xss),
                traversal: Some(self.rules.traversal),
                cmdi: Some(self.rules.cmdi),
                lfi: Some(self.rules.lfi),
                bot_ua: Some(self.rules.bot_ua),
                rate_limit: Some(self.rules.rate_limit),
            },
            defenses: PersistedDefenses {
                bot_score: Some(self.defenses.bot_score),
                behavior: Some(self.defenses.behavior),
                ddos: Some(self.defenses.ddos),
                honeypots: Some(self.defenses.honeypots),
                subnet: Some(self.defenses.subnet),
                replay: Some(self.defenses.replay),
                dist_ua: Some(self.defenses.dist_ua),
                goodbot: Some(self.defenses.goodbot),
                bic: Some(self.defenses.bic),
            },
            honeypot_paths: None,
            auth_token: Some(self.auth_token.clone()),
            turnstile_provider: Some(self.turnstile_provider.clone()),
            turnstile_site_key: Some(self.turnstile_site_key.clone()),
            turnstile_secret: None,
        };
        assert(r@ =~= snapshot_of(self@));
        r
    }

    /// Adds a network or an address to the allow list.
    pub fn add_allow(&mut self, cidr: &str) -> (r: Result<(), NetError>)
        requires
            old(self).wf(),
        ensures
            final(self).wf(),
            match net::parsed_net(cidr@) {
                Some(n) => r is Ok && final(self)@ == (RuntimeView {
                    allow: with_net(old(self)@.allow, n),
                    unsaved: true,
                    ..old(self)@
                }),
                None => r is Err && final(self)@ == old(self)@ && r->Err_0.message@ == cidr@
                    + ": invalid IP address syntax"@,
            },
    {
        match parse_net(cidr) {
            Ok(n) => {
                add_net(&mut self.allow, n);
                self.unsaved = true;
                assert(self@ =~= (RuntimeView {
                    allow: with_net(old(self)@.allow, n),
                    unsaved: true,
                    ..old(self)@
                }));
                Ok(())
            },
            Err(e) => Err(e),
        }
    }

    /// Adds a network or an address to the deny list.
    pub fn add_deny(&mut self, cidr: &str) -> (r: Result<(), NetError>)
        requires
            old(self).wf(),
        ensures
            final(self).wf(),
            match net::parsed_net(cidr@) {
                Some(n) => r is Ok && final(self)@ == (RuntimeView {
                    deny: with_net(old(self)@.deny, n),
                    unsaved: true,
                    ..old(self)@
                }),
                None => r is Err && final(self)@ == old(self)@ && r->Err_0.message@ == cidr@
                    + ": invalid IP address syntax"@,
            },
    {
        match parse_net(cidr) {
            Ok(n) => {
                add_net(&mut self.deny, n);
                self.unsaved = true;
                assert(self@ =~= (RuntimeView {
                    deny: with_net(old(self)@.deny, n),
                    unsaved: true,
                    ..old(self)@
                }));
                Ok(())
            },
            Err(e) => Err(e),
        }
    }

    /// Removes a network or an address from the allow list.
    pub fn remove_allow(&mut self, cidr: &str) -> (r: Result<(), NetError>)
        requires
            old(self).wf(),
        ensures
            final(self).wf(),
            match net::parsed_net(cidr@) {
                Some(n) => r is Ok && final(self)@ == (RuntimeView {
                    allow: without_net(old(self)@.allow, n),
                    unsaved: true,
                    ..old(self)@
                }),
                None => r is Err && final(self)@ == old(self)@ && r->Err_0.message@ == cidr@
                    + ": invalid IP address syntax"@,
            },
    {
        match parse_net(cidr) {
            Ok(n) => {
                self.allow = drop_net(&self.allow, n);
                proof {
                    lemma_without_wf(old(self)@.allow, n);
                }
                self.unsaved = true;
                assert(self@ =~= (RuntimeView {
                    allow: without_net(old(self)@.allow, n),
                    unsaved: true,
                    ..old(self)@
                }));
                Ok(())
            },
            Err(e) => Err(e),
        }
    }

    /// Removes a network or an address from the deny list.
    pub fn remove_deny(&mut self, cidr: &str) -> (r: Result<(), NetError>)
        requires
            old(self).wf(),
        ensures
            final(self).wf(),
            match net::parsed_net(cidr@) {
                Some(n) => r is Ok && final(self)@ == (RuntimeView {
                    deny: without_net(old(self)@.deny, n),
                    unsaved: true,
                    ..old(self)@
                }),
                None => r is Err && final(self)@ == old(self)@ && r->Err_0.message@ == cidr@
                    + ": invalid IP address syntax"@,
            },
    {
        match parse_net(cidr) {
            Ok(n) => {
                self.deny = drop_net(&self.deny, n);
                proof {
                    lemma_without_wf(old(self)@.deny, n);
                }
                self.unsaved = true;
                assert(self@ =~= (RuntimeView {
                    deny: without_net(old(self)@.deny, n),
                    unsaved: true,
                    ..old(self)@
                }));
                Ok(())
            },
            Err(e) => Err(e),
        }
    }

    /// Whether something changed since the last call that has to be stored.
    pub fn take_unsaved(&mut self) -> (r: bool)
        ensures
            r == old(self)@.unsaved,
            final(self)@ == (RuntimeView { unsaved: false, ..old(self)@ }),
            old(self).wf() ==> final(self).wf(),
    {
        let r = self.unsaved;
        self.unsaved = false;
        assert(self@ =~= (RuntimeView { unsaved: false, ..old(self)@ }));
        r
    }
}

proof fn lemma_without_wf(list: Seq<IpNet>, n: IpNet)
    requires
        nets_wf(list),
    ensures
        nets_wf(without_net(list, n)),
    decreases list.len(),
{
    if list.len() > 0 {
        let rest = list.drop_last();
        assert forall|i: int| 0 <= i < rest.len() implies (#[trigger] rest[i]).wf() by {
            assert(rest[i] == list[i]);
        }
        assert(list[list.len() - 1].wf());
        lemma_without_wf(rest, n);
    }
}

// ---------------------------------------------------------------------------
// Laws
// ---------------------------------------------------------------------------

/// The levels by their numbers: what is no number of a level stands for none.
pub proof fn lemma_levels(n: u8)
    ensures
        level_of(n) == UamLevel::Low <==> n == 1,
        level_of(n) == UamLevel::Medium <==> n == 2,
        level_of(n) == UamLevel::High <==> n == 3,
        level_of(n) == UamLevel::Extreme <==> n == 4,
        level_of(n) == UamLevel::Off <==> n == 0 || n > 4,
{
}

/// The lockdown is on by its own switch, or by itself at the two highest levels where that is wanted.
pub proof fn lemma_lockdown_exactly(v: RuntimeView)
    ensures
        locked_down(v) <==> v.lockdown || (v.auto_lockdown && (v.uam_level == 3 || v.uam_level == 4)),
{
}

/// The networks of a list of texts are those that some text names, in their order.
pub proof fn lemma_nets_in(a: Seq<Seq<char>>, b: Seq<Seq<char>>, s: Seq<char>)
    ensures
        nets_in(a + b) == nets_in(a) + nets_in(b),
        net::parsed_net(s) is Some ==> nets_in(seq![s]) == seq![net::parsed_net(s)->0],
        net::parsed_net(s) is None ==> nets_in(seq![s]).len() == 0,
    decreases b.len(),
{
    if b.len() == 0 {
        assert(a + b =~= a);
        assert(nets_in(a) + nets_in(b) =~= nets_in(a));
    } else {
        lemma_nets_in(a, b.drop_last(), s);
        assert((a + b).drop_last() =~= a + b.drop_last());
        assert(nets_in(a + b) =~= nets_in(a) + nets_in(b));
    }
    let none: Seq<Seq<char>> = seq![];
    assert(seq![s].drop_last() =~= none);
    assert(nets_in(none).len() == 0);
    if net::parsed_net(s) is Some {
        assert(nets_in(seq![s]) =~= seq![net::parsed_net(s)->0]);
    }
}

/// What is shown of the settings holds each of them but for the secret of the captcha service.
pub proof fn lemma_secret_kept(v: RuntimeView)
    ensures
        snapshot_of(v).turnstile_secret is None,
        snapshot_of(v).block_threshold == Some(v.block_threshold),
        snapshot_of(v).challenge_threshold == Some(v.challenge_threshold),
        snapshot_of(v).uam_level == Some(v.uam_level),
        snapshot_of(v).turnstile_site_key == Some(v.turnstile_site_key),
{
}

/// Settings that are stored and taken over again are there as they were, whatever stood in their
/// place before; an empty token never takes the place of one.
pub proof fn lemma_taken_over(stored: RuntimeView, v: RuntimeView, p: PersistedView)
    requires
        stores(p, stored),
        stored.uam_level <= 4,
        stored.challenge_mode <= 2,
    ensures
        ({
            let r = applied(v, p);
            &&& r.under_attack == stored.under_attack
            &&& r.uam_level == stored.uam_level
            &&& r.challenge_mode == stored.challenge_mode
            &&& r.auto_uam_enabled == stored.auto_uam_enabled
            &&& r.auto_uam_threshold == stored.auto_uam_threshold
            &&& r.challenge_threshold == stored.challenge_threshold
            &&& r.block_threshold == stored.block_threshold
            &&& r.max_concurrent_per_ip == stored.max_concurrent_per_ip
            &&& r.rpm_under_attack_bps == stored.rpm_under_attack_bps
            &&& r.subnet_rpm == stored.subnet_rpm
            &&& r.subnet_conn == stored.subnet_conn
            &&& r.global_inflight_cap == stored.global_inflight_cap
            &&& r.tarpit_score == stored.tarpit_score
            &&& r.datacenter_block == stored.datacenter_block
            &&& r.rules == stored.rules
            &&& r.defenses.bot_score == stored.defenses.bot_score
            &&& r.defenses.behavior == stored.defenses.behavior
            &&& r.defenses.ddos == stored.defenses.ddos
            &&& r.defenses.honeypots == stored.defenses.honeypots
            &&& r.defenses.subnet == stored.defenses.subnet
            &&& r.defenses.replay == stored.defenses.replay
            &&& r.defenses.dist_ua == stored.defenses.dist_ua
            &&& r.defenses.goodbot == stored.defenses.goodbot
            &&& r.defenses.bic == stored.defenses.bic
            &&& r.defenses.browser_integrity == v.defenses.browser_integrity
            &&& nets_in(p.allow) == stored.allow ==> r.allow == stored.allow
            &&& nets_in(p.deny) == stored.deny ==> r.deny == stored.deny
            &&& r.blocked_countries.len() == stored.blocked_countries.len()
            &&& forall|i: int|
                0 <= i < r.blocked_countries.len() ==> #[trigger] r.blocked_countries[i] == text::upper_text(
                    stored.blocked_countries[i],
                )
            &&& r.turnstile_provider == stored.turnstile_provider
            &&& r.turnstile_site_key == stored.turnstile_site_key
            &&& r.auth_token == if stored.auth_token.len() > 0 {
                stored.auth_token
            } else {
                v.auth_token
            }
            &&& r.lockdown == v.lockdown
            &&& r.auto_lockdown == v.auto_lockdown
        }),
{
}

/// At the start no level is in force and nothing is locked down, nobody is on a list, and the
/// thresholds are those of the configuration.
pub proof fn lemma_quiet_start(cfg: Config, token: Seq<char>)
    ensures
        ({
            let r = initial(cfg, token);
            &&& r.uam_level == 0
            &&& !r.under_attack
            &&& !locked_down(r)
            &&& r.allow.len() == 0
            &&& r.deny.len() == 0
            &&& r.block_threshold == cfg.detection.block_threshold
            &&& r.challenge_threshold == cfg.detection.challenge_threshold
            &&& r.rules.sqli == cfg.detection.sqli
            &&& r.rules.xss == cfg.detection.xss
            &&& r.rules.traversal == cfg.detection.traversal
            &&& r.rules.cmdi == cfg.detection.cmdi
            &&& r.rules.lfi == cfg.detection.lfi
            &&& r.rules.rate_limit == cfg.rate_limit.enabled
            &&& r.auth_token == token
            &&& r.turnstile_secret.len() == 0
        }),
{
}

/// The modes by their numbers.
pub proof fn lemma_modes(n: u8)
    ensures
        mode_of(n) == ChallengeMode::Pow <==> n == 0 || n > 2,
        mode_of(n) == ChallengeMode::Interactive <==> n == 1,
        mode_of(n) == ChallengeMode::Combined <==> n == 2,
{
}

/// A network stands on a list once: what is there already is not added again, and what is new goes to
/// the end.
pub proof fn lemma_net_once(list: Seq<IpNet>, n: IpNet)
    ensures
        list.contains(n) ==> with_net(list, n) == list,
        !list.contains(n) ==> with_net(list, n) == list.push(n),
        !list.contains(n) ==> without_net(list, n) == list,
    decreases list.len(),
{
    if !list.contains(n) && list.len() > 0 {
        let rest = list.drop_last();
        assert(list.last() == list[list.len() - 1]);
        if rest.contains(n) {
            let i = choose|i: int| 0 <= i < rest.len() && rest[i] == n;
            assert(list[i] == n);
        }
        lemma_net_once(rest, n);
        assert(rest.push(list.last()) =~= list);
    }
}

} // verus!
