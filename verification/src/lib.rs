//! A verified core for a rule-based local proxy: configuration and
//! subscription parsing, proxy-group resolution, session bookkeeping, DNS
//! messages and the wire formats of the SOCKS5, HTTP, VLESS and VMess
//! protocols.
use vstd::prelude::*;

pub mod api;
pub mod bridge;
pub mod cli;
pub mod clock;
pub mod codec;
pub mod config;
pub mod desktop;
pub mod dns;
pub mod http;
pub mod md5;
pub mod outbound;
pub mod paths;
pub mod proxies;
pub mod service;
pub mod session;
pub mod socks5;
pub mod subscription;
pub mod target;
pub mod testing;
pub mod text;
pub mod tun;
pub mod uri;
pub mod vless;
pub mod vmess;
pub mod vmess_aead;

verus! {
} // verus!
