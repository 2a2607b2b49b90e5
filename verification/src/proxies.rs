//! The other outbound kinds: direct and reject, Trojan, and AnyTLS with the
//! HTTP probe that measures its delay.
use vstd::prelude::*;

use crate::config::ProxyConfig;
use crate::target::Target;
use crate::text::{chars_of, eq_ignore_ascii_case, opt_view, push_str, string_of};
use crate::vless::{alpn_protocols, byte_views, spec_alpn};

verus! {

/// Connections go straight to their target.
pub struct DirectProxy {
    pub name: String,
}

/// Connections are refused.
pub struct RejectProxy {
    pub name: String,
}

/// An upstream Trojan server.
pub struct TrojanProxy {
    pub name: String,
    pub server: String,
    pub port: u16,
}

/// An upstream AnyTLS server.
pub struct AnyTlsProxy {
    pub name: String,
    pub server: String,
    pub port: u16,
    pub password: String,
    pub sni: Option<String>,
    pub alpn: Vec<Vec<u8>>,
    pub skip_cert_verify: bool,
    pub udp: bool,
}

impl DirectProxy {
    pub fn new() -> (r: DirectProxy)
        ensures
            r.name@ == "DIRECT"@,
    {
        DirectProxy { name: string_of(chars_of("DIRECT").as_slice()) }
    }
}

impl DirectProxy {
    /// Direct connections also carry UDP.
    pub fn supports_udp(&self) -> (r: bool)
        ensures
            r,
    {
        true
    }
}

/// Why the reject outbound answers no request.
#[derive(Debug, PartialEq, Eq, Structural)]
pub enum RejectError {
    /// The connection is refused.
    Refused,
}

impl RejectError {
    /// The message of the refusal.
    pub fn message(&self) -> (r: String)
        ensures
            r@ == "连接被拒绝"@,
    {
        string_of(chars_of("连接被拒绝").as_slice())
    }
}

impl RejectProxy {
    pub fn new() -> (r: RejectProxy)
        ensures
            r.name@ == "REJECT"@,
    {
        RejectProxy { name: string_of(chars_of("REJECT").as_slice()) }
    }

    /// The outbound's name.
    pub fn name(&self) -> (r: &str)
        ensures
            r@ == self.name@,
    {
        self.name.as_str()
    }

    /// The reject outbound carries no UDP.
    pub fn supports_udp(&self) -> (r: bool)
        ensures
            !r,
    {
        false
    }

    /// A TCP connection to any target is refused.
    pub fn connect_tcp(&self, _target: &Target) -> (r: Result<(), RejectError>)
        ensures
            r == Err::<(), RejectError>(RejectError::Refused),
    {
        Err(RejectError::Refused)
    }

    /// A delay test of any URL, with any timeout, is refused.
    pub fn delay_test(&self, _url: &str, _timeout_ms: u64) -> (r: Result<u64, RejectError>)
        ensures
            r == Err::<u64, RejectError>(RejectError::Refused),
    {
        Err(RejectError::Refused)
    }
}

impl TrojanProxy {
    pub fn from_config(config: &ProxyConfig) -> (r: TrojanProxy)
        ensures
            r.name@ == config.name@,
            r.server@ == config.server@,
            r.port == config.port,
    {
        TrojanProxy { name: config.name.clone(), server: config.server.clone(), port: config.port }
    }
}

impl AnyTlsProxy {
    pub fn from_config(config: &ProxyConfig) -> (r: AnyTlsProxy)
        ensures
            r.name@ == config.name@,
            r.server@ == config.server@,
            r.port == config.port,
            r.password@ == match config.password {
                Some(p) => p@,
                None => Seq::<char>::empty(),
            },
            opt_view(r.sni) == opt_view(config.sni),
            byte_views(r.alpn@) == spec_alpn(config.alpn),
            r.skip_cert_verify == config.skip_cert_verify,
            r.udp == config.udp,
    {
        AnyTlsProxy {
            name: config.name.clone(),
            server: config.server.clone(),
            port: config.port,
            password: match &config.password {
                Some(p) => p.clone(),
                None => String::new(),
            },
            sni: match &config.sni {
                Some(s) => Some(s.clone()),
                None => None,
            },
            alpn: alpn_protocols(&config.alpn),
            skip_cert_verify: config.skip_cert_verify,
            udp: config.udp,
        }
    }

    /// The name the TLS handshake asks for: the SNI, else the server.
    pub fn server_name(&self) -> (r: String)
        ensures
            r@ == match self.sni {
                Some(s) => s@,
                None => self.server@,
            },
    {
        match &self.sni {
            Some(s) => s.clone(),
            None => self.server.clone(),
        }
    }
}

/// The request of the delay probe: `GET` of the URL's path and query (`/`
/// when there is no path), closing the connection.
pub open spec fn spec_probe_request(path: Seq<char>, query: Option<Seq<char>>, host: Seq<char>) -> Seq<char> {
    let p = match query {
        Some(q) => path + "?"@ + q,
        None => path,
    };
    "GET "@ + (if p.len() == 0 {
        "/"@
    } else {
        p
    }) + " HTTP/1.1\r\nHost: "@ + host + "\r\nConnection: close\r\nUser-Agent: Titan/0.1\r\n\r\n"@
}

/// The request of the delay probe.
pub fn probe_request(path: &str, query: Option<&str>, host: &str) -> (r: String)
    ensures
        r@ == spec_probe_request(
            path@,
            match query {
                Some(q) => Some(q@),
                None => None,
            },
            host@,
        ),
{
    let mut p = String::new();
    push_str(&mut p, path);
    match query {
        Some(q) => {
            push_str(&mut p, "?");
            push_str(&mut p, q);
        },
        None => {},
    }
    let mut r = String::new();
    push_str(&mut r, "GET ");
    if chars_of(p.as_str()).len() == 0 {
        push_str(&mut r, "/");
    } else {
        push_str(&mut r, p.as_str());
    }
    push_str(&mut r, " HTTP/1.1\r\nHost: ");
    push_str(&mut r, host);
    push_str(&mut r, "\r\nConnection: close\r\nUser-Agent: Titan/0.1\r\n\r\n");
    r
}

/// The delay probe speaks plain HTTP only.
pub fn probe_scheme_supported(scheme: &str) -> (r: bool)
    ensures
        r == crate::text::eq_ignore_case(scheme@, "http"@),
{
    eq_ignore_ascii_case(scheme, "http")
}

/// A probe answer that succeeded: its status line begins with `HTTP/1.1 2`
/// or `HTTP/1.0 2`.
pub open spec fn probe_accepted(b: Seq<u8>) -> bool {
    b.len() >= 10 && b[0] == 72 && b[1] == 84 && b[2] == 84 && b[3] == 80 && b[4] == 47 && b[5] == 49 && b[6] == 46
        && (b[7] == 49 || b[7] == 48) && b[8] == 32 && b[9] == 50
}

/// Whether the answer to the probe is a success.
pub fn probe_succeeded(response: &[u8]) -> (r: bool)
    ensures
        r == probe_accepted(response@),
{
    response.len() >= 10 && response[0] == 72 && response[1] == 84 && response[2] == 84 && response[3] == 80
        && response[4] == 47 && response[5] == 49 && response[6] == 46 && (response[7] == 49 || response[7] == 48)
        && response[8] == 32 && response[9] == 50
}

} // verus!
