//! A web application firewall at the HTTP layer: the rules, the memory of the traffic, the
//! decision on each request, and what the proxy and the dashboard in front of it do.
//!
//! Nothing here reads or writes a socket or a file. What comes from outside is handed in as plain
//! values, and what has to be sent is handed back.

pub mod admin;
pub mod behavior;
pub mod bic;
pub mod browser_check;
pub mod challenge;
pub mod clock;
pub mod config;
pub mod connections;
pub mod counts;
pub mod crypto;
pub mod ddos;
pub mod decision;
pub mod decode;
pub mod engine;
pub mod events;
pub mod fingerprint;
pub mod goodbot;
pub mod h2_anomaly;
pub mod hash;
pub mod honeypots;
pub mod http;
pub mod json;
pub mod metrics;
pub mod net;
pub mod num;
pub mod pages;
pub mod policy;
pub mod proxy;
pub mod ratelimit;
pub mod redirect;
pub mod reputation;
pub mod request;
pub mod rules;
pub mod runtime;
pub mod score;
pub mod signature;
pub mod sort;
pub mod storage;
pub mod subnet;
pub mod table;
pub mod text;
pub mod turnstile;
pub mod window;

pub use config::Config;
pub use decision::{Action, Decision, DecisionReason};
pub use engine::Engine;
pub use request::RequestCtx;
pub use runtime::Runtime;
