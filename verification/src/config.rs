//! The static configuration.

use crate::num::{self, dec};
use crate::text::{self, byte_len, cat5};
use vstd::prelude::*;

verus! {

#[derive(Debug, Clone)]
pub struct Config {
    pub server: ServerCfg,
    pub upstream: UpstreamCfg,
    pub limits: LimitsCfg,
    pub rate_limit: RateLimitCfg,
    pub reputation: ReputationCfg,
    pub geoip: GeoIpCfg,
    pub detection: DetectionCfg,
    pub challenge: ChallengeCfg,
    pub logging: LoggingCfg,
    pub admin: AdminCfg,
}

#[derive(Debug, Clone)]
pub struct ServerCfg {
    pub listen: String,
    pub listen_tls: String,
    pub tls_cert: String,
    pub tls_key: String,
    pub redirect_to_https_port: u16,
    pub threads: usize,
    pub trusted_proxy_hops: u8,
}

#[derive(Debug, Clone)]
pub struct UpstreamCfg {
    pub address: String,
    pub sni: String,
    pub tls: bool,
    pub connect_timeout_ms: u64,
    pub read_timeout_ms: u64,
}

pub fn default_connect_timeout() -> (r: u64)
    ensures
        r == 2000,
{
    2000
}

pub fn default_read_timeout() -> (r: u64)
    ensures
        r == 30_000,
{
    30_000
}

#[derive(Debug, Clone)]
pub struct LimitsCfg {
    pub max_body_bytes: usize,
    pub max_headers: usize,
    pub max_header_value_bytes: usize,
    pub max_uri_bytes: usize,
    pub allowed_methods: Vec<String>,
}

pub fn default_max_body() -> (r: usize)
    ensures
        r == 1024 * 1024,
{
    1024 * 1024
}

pub fn default_max_headers() -> (r: usize)
    ensures
        r == 100,
{
    100
}

pub fn default_max_header_value() -> (r: usize)
    ensures
        r == 8192,
{
    8192
}

pub fn default_max_uri() -> (r: usize)
    ensures
        r == 8192,
{
    8192
}

pub fn default_methods() -> (r: Vec<String>)
    ensures
        r.deep_view() == seq!["GET"@, "HEAD"@, "POST"@, "PUT"@, "PATCH"@, "DELETE"@, "OPTIONS"@],
{
    let r = vec![
        "GET".to_string(),
        "HEAD".to_string(),
        "POST".to_string(),
        "PUT".to_string(),
        "PATCH".to_string(),
        "DELETE".to_string(),
        "OPTIONS".to_string(),
    ];
    assert(r.deep_view() =~= seq!["GET"@, "HEAD"@, "POST"@, "PUT"@, "PATCH"@, "DELETE"@, "OPTIONS"@]);
    r
}

#[derive(Debug, Clone)]
pub struct RateLimitCfg {
    pub enabled: bool,
    pub requests_per_minute: u32,
    pub burst: u32,
    pub routes: Vec<RouteRateLimit>,
}

pub fn default_true() -> (r: bool)
    ensures
        r,
{
    true
}

#[derive(Debug, Clone)]
pub struct RouteRateLimit {
    pub pattern: String,
    pub requests_per_minute: u32,
    pub burst: u32,
}

#[derive(Debug, Clone)]
pub struct ReputationCfg {
    pub allow_cidrs: Vec<String>,
    pub deny_cidrs: Vec<String>,
    pub auto_ban_threshold_hits: u32,
    pub auto_ban_window_secs: u64,
    pub auto_ban_duration_secs: u64,
}

pub fn default_auto_ban_hits() -> (r: u32)
    ensures
        r == 5,
{
    5
}

pub fn default_auto_ban_window() -> (r: u64)
    ensures
        r == 60,
{
    60
}

pub fn default_auto_ban_duration() -> (r: u64)
    ensures
        r == 3600,
{
    3600
}

#[derive(Debug, Clone)]
pub struct GeoIpCfg {
    pub mmdb_path: String,
    pub block_countries: Vec<String>,
    pub suspicious_countries: Vec<String>,
}

impl Default for GeoIpCfg {
    fn default() -> (r: GeoIpCfg)
        ensures
            r.mmdb_path@ == Seq::<char>::empty(),
            r.block_countries@ == Seq::<String>::empty(),
            r.suspicious_countries@ == Seq::<String>::empty(),
    {
        GeoIpCfg {
            mmdb_path: String::new(),
            block_countries: Vec::new(),
            suspicious_countries: Vec::new(),
        }
    }
}

#[derive(Debug, Clone)]
pub struct DetectionCfg {
    pub challenge_threshold: u32,
    pub block_threshold: u32,
    pub sqli: bool,
    pub xss: bool,
    pub traversal: bool,
    pub cmdi: bool,
    pub lfi: bool,
    pub suspicious_user_agents: Vec<String>,
}

pub fn default_challenge_threshold() -> (r: u32)
    ensures
        r == 40,
{
    40
}

pub fn default_block_threshold() -> (r: u32)
    ensures
        r == 70,
{
    70
}

#[derive(Debug, Clone)]
pub struct ChallengeCfg {
    pub hmac_secret: String,
    pub cookie_name: String,
    pub cookie_ttl_secs: u64,
    pub pow_difficulty: u8,
}

pub fn default_cookie_name() -> (r: String)
    ensures
        r@ == "__2t1_clearance"@,
{
    "__2t1_clearance".to_string()
}

pub fn default_cookie_ttl() -> (r: u64)
    ensures
        r == 1800,
{
    1800
}

pub fn default_pow_difficulty() -> (r: u8)
    ensures
        r == 4,
{
    4
}

#[derive(Debug, Clone)]
pub struct LoggingCfg {
    pub format: String,
    pub level: String,
}

impl Default for LoggingCfg {
    fn default() -> (r: LoggingCfg)
        ensures
            r.format@ == "json"@,
            r.level@ == "info"@,
    {
        LoggingCfg { format: default_log_format(), level: default_log_level() }
    }
}

pub fn default_log_format() -> (r: String)
    ensures
        r@ == "json"@,
{
    "json".to_string()
}

pub fn default_log_level() -> (r: String)
    ensures
        r@ == "info"@,
{
    "info".to_string()
}

#[derive(Debug, Clone)]
pub struct AdminCfg {
    pub listen: String,
    pub runtime_state_path: String,
}

impl Default for AdminCfg {
    fn default() -> (r: AdminCfg)
        ensures
            r.listen@ == "127.0.0.1:9090"@,
            r.runtime_state_path@ == Seq::<char>::empty(),
    {
        AdminCfg { listen: default_admin_listen(), runtime_state_path: String::new() }
    }
}

pub fn default_admin_listen() -> (r: String)
    ensures
        r@ == "127.0.0.1:9090"@,
{
    "127.0.0.1:9090".to_string()
}

/// Why a configuration was refused.
#[derive(Debug)]
pub struct ConfigError {
    pub message: String,
}

/// The smallest number of bytes that the secret may have.
pub const MIN_SECRET_BYTES: usize = 16;

/// What is wrong with a configuration: first the secret, then the thresholds.
pub open spec fn fault(cfg: Config) -> Option<Seq<char>> {
    if text::utf8_len(cfg.challenge.hmac_secret@) < MIN_SECRET_BYTES {
        Some("challenge.hmac_secret must be at least 16 bytes"@)
    } else if cfg.detection.challenge_threshold >= cfg.detection.block_threshold {
        Some(
            "detection.challenge_threshold ("@ + num::dec_text(cfg.detection.challenge_threshold as nat)
                + ") must be < block_threshold ("@ + num::dec_text(cfg.detection.block_threshold as nat) + ")"@,
        )
    } else {
        None
    }
}

impl Config {
    /// Whether the secret is long enough and the thresholds are in order.
    pub fn validate(&self) -> (r: Result<(), ConfigError>)
        ensures
            r is Ok <==> fault(*self) is None,
            r matches Err(e) ==> fault(*self) == Some(e.message@),
    {
        if byte_len(self.challenge.hmac_secret.as_str()) < MIN_SECRET_BYTES {
            return Err(
                ConfigError { message: "challenge.hmac_secret must be at least 16 bytes".to_string() },
            );
        }
        if self.detection.challenge_threshold >= self.detection.block_threshold {
            return Err(
                ConfigError {
                    message: cat5(
                        "detection.challenge_threshold (",
                        dec(self.detection.challenge_threshold as u64).as_str(),
                        ") must be < block_threshold (",
                        dec(self.detection.block_threshold as u64).as_str(),
                        ")",
                    ),
                },
            );
        }
        Ok(())
    }
}

// ---------------------------------------------------------------------------
// Laws
// ---------------------------------------------------------------------------

/// A configuration is sound exactly when its secret has sixteen bytes or more and the challenge
/// threshold lies below the block threshold.
pub proof fn lemma_sound_exactly(cfg: Config)
    ensures
        fault(cfg) is None <==> text::utf8_len(cfg.challenge.hmac_secret@) >= 16 && cfg.detection.challenge_threshold
            < cfg.detection.block_threshold,
        text::utf8_len(cfg.challenge.hmac_secret@) < 16 ==> fault(cfg) == Some(
            "challenge.hmac_secret must be at least 16 bytes"@,
        ),
{
}

} // verus!
