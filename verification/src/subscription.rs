//! Subscriptions: proxy share links (`vmess://`, `vless://`, `trojan://`,
//! `ss://`, `hysteria2://`, `tuic://`, `anytls://`), the reading of
//! subscription content, and the traffic figures that providers send in
//! response headers.
use vstd::prelude::*;
use vstd::utf8::{decode_utf8, valid_utf8};

use crate::codec::{
    base64_decode_standard, base64_decode_url_safe, base64_decode_url_safe_no_pad, base64_standard_decoded,
    base64_url_safe_decoded, base64_url_safe_no_pad_decoded, percent_decode, percent_decoded, utf8_decode,
};
use crate::config::{Config, ProxyConfig, SubscriptionConfig};
use crate::text::{
    chars_eq, chars_eq_ignore_case, chars_of, chars_start_with, eq_ignore_case, lines, lines_of, opt_view, parse_decimal,
    parse_unsigned, piece_views, split_chars, split_on, split_once, split_once_chars, starts_with, string_of, trim,
    trim_chars,
};
use crate::uri::{
    opt_text, pair_views, parse_url, url_fragment, url_host, url_parses, url_port, url_query_pairs, url_username,
};

verus! {

// ---------------------------------------------------------------------------
// Metadata
// ---------------------------------------------------------------------------

/// What a subscription provider reported about an account.
pub struct SubscriptionMetadata {
    pub source: Option<String>,
    pub fetched_at_unix: u64,
    pub upload: Option<u64>,
    pub download: Option<u64>,
    pub total: Option<u64>,
    pub expire: Option<u64>,
    pub profile_web_page: Option<String>,
    pub content_disposition: Option<String>,
}

/// Fetched subscription content and what came with it.
pub struct SubscriptionFetchResult {
    pub content: String,
    pub metadata: SubscriptionMetadata,
}

/// The outcome of refreshing a configuration from its subscription.
pub struct SubscriptionRefreshResult {
    pub metadata: SubscriptionMetadata,
    pub source: String,
}

pub open spec fn or_zero(v: Option<u64>) -> u64 {
    match v {
        Some(x) => x,
        None => 0,
    }
}

/// `a + b`, held at `u64::MAX`.
pub open spec fn sat_add(a: u64, b: u64) -> u64 {
    if a + b > u64::MAX {
        u64::MAX
    } else {
        (a + b) as u64
    }
}

/// `a - b`, held at 0.
pub open spec fn sat_sub(a: u64, b: u64) -> u64 {
    if a < b {
        0
    } else {
        (a - b) as u64
    }
}

impl SubscriptionMetadata {
    /// Nothing reported.
    pub fn empty() -> (r: SubscriptionMetadata)
        ensures
            r.source is None,
            r.fetched_at_unix == 0,
            r.upload is None && r.download is None && r.total is None && r.expire is None,
            r.profile_web_page is None && r.content_disposition is None,
    {
        SubscriptionMetadata {
            source: None,
            fetched_at_unix: 0,
            upload: None,
            download: None,
            total: None,
            expire: None,
            profile_web_page: None,
            content_disposition: None,
        }
    }

    /// Traffic used: upload plus download, a missing figure counting as 0,
    /// held at `u64::MAX`.
    pub fn used(&self) -> (r: Option<u64>)
        ensures
            r == Some(sat_add(or_zero(self.upload), or_zero(self.download))),
    {
        let up = match self.upload {
            Some(u) => u,
            None => 0,
        };
        let down = match self.download {
            Some(d) => d,
            None => 0,
        };
        Some(up.saturating_add(down))
    }

    /// Traffic left: the total less what is used, held at 0; unknown
    /// without a total.
    pub fn remaining(&self) -> (r: Option<u64>)
        ensures
            match self.total {
                Some(t) => r == Some(sat_sub(t, sat_add(or_zero(self.upload), or_zero(self.download)))),
                None => r is None,
            },
    {
        match (self.total, self.used()) {
            (Some(total), Some(used)) => Some(total.saturating_sub(used)),
            _ => None,
        }
    }
}

/// A header value, trimmed, when it is present and not blank.
pub open spec fn spec_header_string(raw: Option<Seq<char>>) -> Option<Seq<char>> {
    match raw {
        Some(v) => if trim(v).len() > 0 {
            Some(trim(v))
        } else {
            None
        },
        None => None,
    }
}

/// The value of `key` in `k=v; k=v` pieces from the `i`-th on: the first
/// piece whose trimmed name is `key` in any case and whose trimmed value is
/// a number.
pub open spec fn stat_from(parts: Seq<Seq<char>>, key: Seq<char>, i: int) -> Option<u64>
    decreases parts.len() - i,
{
    if i < 0 || i >= parts.len() {
        None
    } else {
        let part = trim(parts[i]);
        let found = match split_once(part, '=') {
            Some((name, value)) => if eq_ignore_case(trim(name), key) {
                match parse_unsigned(trim(value), u64::MAX as nat) {
                    Some(v) => Some(v as u64),
                    None => None,
                }
            } else {
                None
            },
            None => None,
        };
        if found is Some {
            found
        } else {
            stat_from(parts, key, i + 1)
        }
    }
}

/// A figure from a header of `k=v` pairs separated by `;`.
pub open spec fn spec_header_stat(raw: Option<Seq<char>>, key: Seq<char>) -> Option<u64> {
    match spec_header_string(raw) {
        Some(v) => stat_from(split_on(v, ';'), key, 0),
        None => None,
    }
}

/// A response header as text, when present and not blank.
pub fn header_string(raw: Option<&str>) -> (r: Option<String>)
    ensures
        opt_view(r) == spec_header_string(
            match raw {
                Some(v) => Some(v@),
                None => None,
            },
        ),
{
    match raw {
        None => None,
        Some(v) => {
            let c = chars_of(v);
            let t = trim_chars(c.as_slice());
            if t.len() > 0 {
                Some(string_of(t.as_slice()))
            } else {
                None
            }
        },
    }
}

/// A figure from a header such as `subscription-userinfo:
/// upload=1; download=2; total=3; expire=4`.
pub fn header_stat(raw: Option<&str>, key: &str) -> (r: Option<u64>)
    ensures
        r == spec_header_stat(
            match raw {
                Some(v) => Some(v@),
                None => None,
            },
            key@,
        ),
{
    let v = match header_string(raw) {
        None => {
            return None;
        },
        Some(v) => v,
    };
    let vc = chars_of(v.as_str());
    let parts = split_chars(vc.as_slice(), ';');
    let ghost ps = piece_views(parts@);
    let kc = chars_of(key);
    let ghost want = spec_header_stat(
        match raw {
            Some(v) => Some(v@),
            None => None,
        },
        key@,
    );
    assert(want == stat_from(ps, key@, 0));
    let mut i: usize = 0;
    while i < parts.len()
        invariant
            i <= parts@.len(),
            ps == piece_views(parts@),
            kc@ == key@,
            want == stat_from(ps, key@, 0),
            want == spec_header_stat(
                match raw {
                    Some(v) => Some(v@),
                    None => None,
                },
                key@,
            ),
            stat_from(ps, key@, 0) == stat_from(ps, key@, i as int),
        decreases parts.len() - i,
    {
        let part = trim_chars(parts[i].as_slice());
        match split_once_chars(part.as_slice(), '=') {
            Some((name, value)) => {
                let n = trim_chars(name.as_slice());
                if chars_eq_ignore_case(n.as_slice(), kc.as_slice()) {
                    let val = trim_chars(value.as_slice());
                    match parse_decimal(val.as_slice(), u64::MAX) {
                        Some(x) => {
                            proof {
                                assert(part@ == trim(ps[i as int]));
                                assert(split_once(trim(ps[i as int]), '=') == Some((name@, value@)));
                                assert(parse_unsigned(trim(value@), u64::MAX as nat) == Some(x as nat));
                                assert(stat_from(ps, key@, i as int) == Some(x));
                            }
                            return Some(x);
                        },
                        None => {},
                    }
                }
            },
            None => {},
        }
        i += 1;
    }
    None
}

/// The metadata of a fetch: the source, the time, the traffic figures of
/// `subscription-userinfo`, and the `profile-web-page` and
/// `content-disposition` headers.
pub fn metadata_from_headers(source: &str, fetched_at_unix: u64, userinfo: Option<&str>, web_page: Option<&str>, disposition: Option<&str>) -> (r: SubscriptionMetadata)
    ensures
        opt_view(r.source) == Some(source@),
        r.fetched_at_unix == fetched_at_unix,
        ({
            let u = match userinfo {
                Some(v) => Some(v@),
                None => None,
            };
            &&& r.upload == spec_header_stat(u, "upload"@)
            &&& r.download == spec_header_stat(u, "download"@)
            &&& r.total == spec_header_stat(u, "total"@)
            &&& r.expire == spec_header_stat(u, "expire"@)
        }),
        opt_view(r.profile_web_page) == spec_header_string(
            match web_page {
                Some(v) => Some(v@),
                None => None,
            },
        ),
        opt_view(r.content_disposition) == spec_header_string(
            match disposition {
                Some(v) => Some(v@),
                None => None,
            },
        ),
{
    SubscriptionMetadata {
        source: Some(string_of(chars_of(source).as_slice())),
        fetched_at_unix,
        upload: header_stat(userinfo, "upload"),
        download: header_stat(userinfo, "download"),
        total: header_stat(userinfo, "total"),
        expire: header_stat(userinfo, "expire"),
        profile_web_page: header_string(web_page),
        content_disposition: header_string(disposition),
    }
}


// ---------------------------------------------------------------------------
// Share links
// ---------------------------------------------------------------------------

/// The fields that a share link sets in a proxy entry; the others stay
/// empty, zero or off.
pub struct LinkEntry {
    pub name: Seq<char>,
    pub proxy_type: Seq<char>,
    pub server: Seq<char>,
    pub port: u16,
    pub password: Option<Seq<char>>,
    pub uuid: Option<Seq<char>>,
    pub cipher: Option<Seq<char>>,
    pub network: Option<Seq<char>>,
    pub tls: bool,
    pub sni: Option<Seq<char>>,
    pub flow: Option<Seq<char>>,
}

/// The link fields of an entry.
pub open spec fn entry_of(p: ProxyConfig) -> LinkEntry {
    LinkEntry {
        name: p.name@,
        proxy_type: p.proxy_type@,
        server: p.server@,
        port: p.port,
        password: opt_view(p.password),
        uuid: opt_view(p.uuid),
        cipher: opt_view(p.cipher),
        network: opt_view(p.network),
        tls: p.tls,
        sni: opt_view(p.sni),
        flow: opt_view(p.flow),
    }
}

/// The fields that no link sets are empty, zero or off.
pub open spec fn link_defaults(p: ProxyConfig) -> bool {
    &&& !p.skip_cert_verify
    &&& !p.udp
    &&& p.up is None
    &&& p.down is None
    &&& p.alpn is None
    &&& p.obfs is None
    &&& p.extra@.len() == 0
}

/// `r` is the entry that `e` describes, or nothing when `e` is nothing.
pub open spec fn link_result(r: Option<ProxyConfig>, e: Option<LinkEntry>) -> bool {
    match e {
        None => r is None,
        Some(e) => r is Some && entry_of(r->Some_0) == e && link_defaults(r->Some_0),
    }
}

/// Whether some bytes parse as JSON (`serde_json::from_slice::<Value>`).
pub uninterp spec fn json_parses(b: Seq<u8>) -> bool;

/// The text at `key` of the JSON object in some bytes: parse, `get`,
/// `as_str`.
pub uninterp spec fn json_text(b: Seq<u8>, key: Seq<char>) -> Option<Seq<char>>;

/// The unsigned number at `key` of the JSON object in some bytes: parse,
/// `get`, `as_u64`.
pub uninterp spec fn json_number(b: Seq<u8>, key: Seq<char>) -> Option<u64>;

/// `serde_json::from_slice::<serde_json::Value>`, keeping whether it
/// succeeds. Claimed: the result is `json_parses` of the bytes.
#[verifier::external_body]
fn json_is_valid(b: &[u8]) -> (r: bool)
    ensures
        r == json_parses(b@),
{
    serde_json::from_slice::<serde_json::Value>(b).is_ok()
}

/// `serde_json::from_slice::<serde_json::Value>`, then `Value::get` and
/// `Value::as_str`. Claimed: the result is `json_text` of the bytes and the
/// key.
#[verifier::external_body]
fn json_get_text(b: &[u8], key: &str) -> (r: Option<String>)
    ensures
        opt_view(r) == json_text(b@, key@),
{
    let v: serde_json::Value = serde_json::from_slice(b).ok()?;
    v.get(key)?.as_str().map(String::from)
}

/// `serde_json::from_slice::<serde_json::Value>`, then `Value::get` and
/// `Value::as_u64`. Claimed: the result is `json_number` of the bytes and
/// the key.
#[verifier::external_body]
fn json_get_number(b: &[u8], key: &str) -> (r: Option<u64>)
    ensures
        r == json_number(b@, key@),
{
    let v: serde_json::Value = serde_json::from_slice(b).ok()?;
    v.get(key)?.as_u64()
}

/// The link's name: its fragment, percent-decoded; nothing when that fails.
pub open spec fn link_name(u: Seq<char>) -> Option<Seq<char>> {
    percent_decoded(
        match url_fragment(u) {
            Some(f) => f,
            None => Seq::empty(),
        },
    )
}

pub open spec fn link_server(u: Seq<char>) -> Seq<char> {
    match url_host(u) {
        Some(h) => h,
        None => Seq::empty(),
    }
}

pub open spec fn link_port(u: Seq<char>, default: u16) -> u16 {
    match url_port(u) {
        Some(p) => p,
        None => default,
    }
}

/// An entry of type `ty` from the URL `u`: its name, host and port, and
/// nothing else yet.
pub open spec fn url_entry(u: Seq<char>, ty: Seq<char>, default_port: u16) -> Option<LinkEntry> {
    if !url_parses(u) {
        None
    } else {
        match link_name(u) {
            None => None,
            Some(n) => Some(
                LinkEntry {
                    name: n,
                    proxy_type: ty,
                    server: link_server(u),
                    port: link_port(u, default_port),
                    password: None,
                    uuid: None,
                    cipher: None,
                    network: None,
                    tls: false,
                    sni: None,
                    flow: None,
                },
            ),
        }
    }
}

/// The value of the last query pair named `key`.
pub open spec fn last_param(pairs: Seq<(Seq<char>, Seq<char>)>, key: Seq<char>) -> Option<Seq<char>>
    decreases pairs.len(),
{
    if pairs.len() == 0 {
        None
    } else if pairs.last().0 == key {
        Some(pairs.last().1)
    } else {
        last_param(pairs.drop_last(), key)
    }
}

pub open spec fn spec_vless(link: Seq<char>) -> Option<LinkEntry> {
    let u = "vless://"@ + link.skip(8);
    match url_entry(u, "vless"@, 443) {
        None => None,
        Some(e) => {
            let pairs = url_query_pairs(u);
            Some(
                LinkEntry {
                    uuid: Some(url_username(u)),
                    network: last_param(pairs, "type"@),
                    tls: last_param(pairs, "security"@) == Some("tls"@) || last_param(pairs, "security"@) == Some(
                        "reality"@,
                    ),
                    sni: last_param(pairs, "sni"@),
                    flow: last_param(pairs, "flow"@),
                    ..e
                },
            )
        },
    }
}

pub open spec fn spec_trojan(link: Seq<char>) -> Option<LinkEntry> {
    let u = "trojan://"@ + link.skip(9);
    match url_entry(u, "trojan"@, 443) {
        None => None,
        Some(e) => Some(LinkEntry { password: Some(url_username(u)), tls: true, ..e }),
    }
}

pub open spec fn spec_hysteria2(link: Seq<char>) -> Option<LinkEntry> {
    let rest = if starts_with(link, "hysteria2://"@) {
        link.skip(12)
    } else {
        link.skip(6)
    };
    let u = "hy2://"@ + rest;
    match url_entry(u, "hysteria2"@, 443) {
        None => None,
        Some(e) => Some(LinkEntry { password: Some(url_username(u)), ..e }),
    }
}

pub open spec fn spec_tuic(link: Seq<char>) -> Option<LinkEntry> {
    let u = "tuic://"@ + link.skip(7);
    match url_entry(u, "tuic"@, 443) {
        None => None,
        Some(e) => {
            let parts = split_on(url_username(u), ':');
            Some(
                LinkEntry {
                    uuid: Some(parts[0]),
                    password: if parts.len() > 1 {
                        Some(parts[1])
                    } else {
                        None
                    },
                    ..e
                },
            )
        },
    }
}

pub open spec fn spec_anytls(link: Seq<char>) -> Option<LinkEntry> {
    let u = "anytls://"@ + link.skip(9);
    match url_entry(u, "anytls"@, 8443) {
        None => None,
        Some(e) => Some(LinkEntry { password: Some(url_username(u)), ..e }),
    }
}

/// `ss://` links in the SIP002 form, `ss://base64(method:password)@host:port#name`.
pub open spec fn spec_shadowsocks(link: Seq<char>) -> Option<LinkEntry> {
    if split_once(link.skip(5), '@') is None {
        None
    } else {
        match url_entry(link, "ss"@, 8388) {
            None => None,
            Some(e) => match base64_url_safe_no_pad_decoded(url_username(link)) {
                None => None,
                Some(b) => if !valid_utf8(b) {
                    None
                } else {
                    let parts = split_on(decode_utf8(b), ':');
                    if parts.len() == 2 {
                        Some(LinkEntry { cipher: Some(parts[0]), password: Some(parts[1]), ..e })
                    } else {
                        None
                    }
                },
            },
        }
    }
}

pub open spec fn text_or_empty(o: Option<Seq<char>>) -> Seq<char> {
    match o {
        Some(t) => t,
        None => Seq::empty(),
    }
}

/// `vmess://` links: base64 of a JSON object with `ps`, `add`, `port`,
/// `id`, `scy`, `net` and `tls`.
pub open spec fn spec_vmess(link: Seq<char>) -> Option<LinkEntry> {
    match base64_standard_decoded(link.skip(8)) {
        None => None,
        Some(b) => if !json_parses(b) {
            None
        } else {
            Some(
                LinkEntry {
                    name: text_or_empty(json_text(b, "ps"@)),
                    proxy_type: "vmess"@,
                    server: text_or_empty(json_text(b, "add"@)),
                    port: (match json_number(b, "port"@) {
                        Some(p) => p,
                        None => 0,
                    } % 65536) as u16,
                    password: None,
                    uuid: json_text(b, "id"@),
                    cipher: json_text(b, "scy"@),
                    network: json_text(b, "net"@),
                    tls: json_text(b, "tls"@) == Some("tls"@),
                    sni: None,
                    flow: None,
                },
            )
        },
    }
}

/// The entry that a share link describes, by its scheme.
pub open spec fn spec_link(link: Seq<char>) -> Option<LinkEntry> {
    if starts_with(link, "vmess://"@) {
        spec_vmess(link)
    } else if starts_with(link, "vless://"@) {
        spec_vless(link)
    } else if starts_with(link, "trojan://"@) {
        spec_trojan(link)
    } else if starts_with(link, "ss://"@) {
        spec_shadowsocks(link)
    } else if starts_with(link, "hysteria2://"@) || starts_with(link, "hy2://"@) {
        spec_hysteria2(link)
    } else if starts_with(link, "tuic://"@) {
        spec_tuic(link)
    } else if starts_with(link, "anytls://"@) {
        spec_anytls(link)
    } else {
        None
    }
}

/// A proxy entry with the given name, type, server and port, and nothing
/// else set.
fn link_entry(name: String, proxy_type: &str, server: String, port: u16) -> (r: ProxyConfig)
    ensures
        entry_of(r) == (LinkEntry {
            name: name@,
            proxy_type: proxy_type@,
            server: server@,
            port,
            password: None,
            uuid: None,
            cipher: None,
            network: None,
            tls: false,
            sni: None,
            flow: None,
        }),
        link_defaults(r),
{
    let mut p = ProxyConfig::empty();
    p.name = name;
    p.proxy_type = string_of(chars_of(proxy_type).as_slice());
    p.server = server;
    p.port = port;
    p
}

/// The name, host and port of a link's URL, when the URL parses and its
/// name decodes, together with the parsed parts.
fn url_base(u: &str, proxy_type: &str, default_port: u16) -> (r: Option<(ProxyConfig, crate::uri::UrlParts)>)
    ensures
        match url_entry(u@, proxy_type@, default_port) {
            None => r is None,
            Some(e) => r is Some && entry_of(r->Some_0.0) == e && link_defaults(r->Some_0.0)
                && crate::uri::parts_of(r->Some_0.1, u@),
        },
{
    let parts = match parse_url(u) {
        None => {
            return None;
        },
        Some(p) => p,
    };
    let fragment = match &parts.fragment {
        Some(f) => string_of(chars_of(f.as_str()).as_slice()),
        None => String::new(),
    };
    let name = match percent_decode(fragment.as_str()) {
        None => {
            return None;
        },
        Some(n) => n,
    };
    let server = match &parts.host {
        Some(h) => string_of(chars_of(h.as_str()).as_slice()),
        None => String::new(),
    };
    let port = match parts.port {
        Some(p) => p,
        None => default_port,
    };
    let e = link_entry(name, proxy_type, server, port);
    Some((e, parts))
}

/// The value of the last query pair named `key`.
fn last_query_value(pairs: &Vec<(String, String)>, key: &str) -> (r: Option<String>)
    ensures
        opt_view(r) == last_param(pair_views(pairs@), key@),
{
    let ghost ps = pair_views(pairs@);
    let mut i: usize = pairs.len();
    assert(ps.take(i as int) =~= ps);
    while i > 0
        invariant
            i <= pairs@.len(),
            ps == pair_views(pairs@),
            last_param(ps, key@) == last_param(ps.take(i as int), key@),
        decreases i,
    {
        assert(ps.take(i as int).drop_last() =~= ps.take(i - 1));
        if crate::text::str_eq(pairs[i - 1].0.as_str(), key) {
            return Some(pairs[i - 1].1.clone());
        }
        i -= 1;
    }
    None
}

/// Whether an optional text is the given text.
fn is_text(o: &Option<String>, t: &str) -> (r: bool)
    ensures
        r == (opt_view(*o) == Some(t@)),
{
    match o {
        Some(v) => crate::text::str_eq(v.as_str(), t),
        None => false,
    }
}

/// Joins a scheme prefix and the rest of a link.
fn with_prefix(prefix: &str, link: &[char], from: usize) -> (r: String)
    requires
        from <= link@.len(),
    ensures
        r@ == prefix@ + link@.skip(from as int),
{
    let mut c = chars_of(prefix);
    let mut i: usize = from;
    while i < link.len()
        invariant
            from <= i <= link@.len(),
            c@ == prefix@ + link@.subrange(from as int, i as int),
        decreases link.len() - i,
    {
        c.push(link[i]);
        i += 1;
        assert(c@ =~= prefix@ + link@.subrange(from as int, i as int));
    }
    assert(link@.subrange(from as int, link@.len() as int) =~= link@.skip(from as int));
    string_of(c.as_slice())
}

fn parse_vless(link: &[char]) -> (r: Option<ProxyConfig>)
    requires
        link@.len() >= 8,
    ensures
        link_result(r, spec_vless(link@)),
{
    let u = with_prefix("vless://", link, 8);
    let (mut e, parts) = match url_base(u.as_str(), "vless", 443) {
        None => {
            return None;
        },
        Some(x) => x,
    };
    e.uuid = Some(string_of(chars_of(parts.username.as_str()).as_slice()));
    e.network = last_query_value(&parts.query_pairs, "type");
    let security = last_query_value(&parts.query_pairs, "security");
    e.tls = is_text(&security, "tls") || is_text(&security, "reality");
    e.sni = last_query_value(&parts.query_pairs, "sni");
    e.flow = last_query_value(&parts.query_pairs, "flow");
    Some(e)
}

fn parse_trojan(link: &[char]) -> (r: Option<ProxyConfig>)
    requires
        link@.len() >= 9,
    ensures
        link_result(r, spec_trojan(link@)),
{
    let u = with_prefix("trojan://", link, 9);
    let (mut e, parts) = match url_base(u.as_str(), "trojan", 443) {
        None => {
            return None;
        },
        Some(x) => x,
    };
    e.password = Some(string_of(chars_of(parts.username.as_str()).as_slice()));
    e.tls = true;
    Some(e)
}

fn parse_hysteria2(link: &[char]) -> (r: Option<ProxyConfig>)
    requires
        starts_with(link@, "hysteria2://"@) || starts_with(link@, "hy2://"@),
    ensures
        link_result(r, spec_hysteria2(link@)),
{
    let long = chars_of("hysteria2://");
    let from: usize = if chars_start_with(link, long.as_slice()) {
        12
    } else {
        proof {
            reveal_strlit("hy2://");
        }
        6
    };
    proof {
        reveal_strlit("hysteria2://");
    }
    let u = with_prefix("hy2://", link, from);
    let (mut e, parts) = match url_base(u.as_str(), "hysteria2", 443) {
        None => {
            return None;
        },
        Some(x) => x,
    };
    e.password = Some(string_of(chars_of(parts.username.as_str()).as_slice()));
    Some(e)
}

fn parse_tuic(link: &[char]) -> (r: Option<ProxyConfig>)
    requires
        link@.len() >= 7,
    ensures
        link_result(r, spec_tuic(link@)),
{
    let u = with_prefix("tuic://", link, 7);
    let (mut e, parts) = match url_base(u.as_str(), "tuic", 443) {
        None => {
            return None;
        },
        Some(x) => x,
    };
    let user = chars_of(parts.username.as_str());
    let pieces = split_chars(user.as_slice(), ':');
    e.uuid = Some(string_of(pieces[0].as_slice()));
    e.password = if pieces.len() > 1 {
        Some(string_of(pieces[1].as_slice()))
    } else {
        None
    };
    Some(e)
}

fn parse_anytls(link: &[char]) -> (r: Option<ProxyConfig>)
    requires
        link@.len() >= 9,
    ensures
        link_result(r, spec_anytls(link@)),
{
    let u = with_prefix("anytls://", link, 9);
    let (mut e, parts) = match url_base(u.as_str(), "anytls", 8443) {
        None => {
            return None;
        },
        Some(x) => x,
    };
    e.password = Some(string_of(chars_of(parts.username.as_str()).as_slice()));
    Some(e)
}

fn parse_shadowsocks(link: &[char]) -> (r: Option<ProxyConfig>)
    requires
        link@.len() >= 5,
    ensures
        link_result(r, spec_shadowsocks(link@)),
{
    let rest = crate::text::slice_range(link, 5, link.len());
    assert(rest@ =~= link@.skip(5));
    if split_once_chars(rest.as_slice(), '@').is_none() {
        return None;
    }
    let l = string_of(link);
    let (mut e, parts) = match url_base(l.as_str(), "ss", 8388) {
        None => {
            return None;
        },
        Some(x) => x,
    };
    let userinfo = match base64_decode_url_safe_no_pad(parts.username.as_str()) {
        None => {
            return None;
        },
        Some(b) => b,
    };
    let text = match utf8_decode(userinfo.as_slice()) {
        None => {
            return None;
        },
        Some(t) => t,
    };
    let tc = chars_of(text.as_str());
    let pieces = split_chars(tc.as_slice(), ':');
    if pieces.len() != 2 {
        return None;
    }
    e.cipher = Some(string_of(pieces[0].as_slice()));
    e.password = Some(string_of(pieces[1].as_slice()));
    Some(e)
}

fn parse_vmess(link: &[char]) -> (r: Option<ProxyConfig>)
    requires
        link@.len() >= 8,
    ensures
        link_result(r, spec_vmess(link@)),
{
    let rest = crate::text::slice_range(link, 8, link.len());
    assert(rest@ =~= link@.skip(8));
    let b64 = string_of(rest.as_slice());
    let decoded = match base64_decode_standard(b64.as_str()) {
        None => {
            return None;
        },
        Some(d) => d,
    };
    if !json_is_valid(decoded.as_slice()) {
        return None;
    }
    let name = match json_get_text(decoded.as_slice(), "ps") {
        Some(t) => t,
        None => String::new(),
    };
    let server = match json_get_text(decoded.as_slice(), "add") {
        Some(t) => t,
        None => String::new(),
    };
    let port = match json_get_number(decoded.as_slice(), "port") {
        Some(p) => p,
        None => 0,
    };
    let mut e = link_entry(name, "vmess", server, (port % 65536) as u16);
    e.uuid = json_get_text(decoded.as_slice(), "id");
    e.cipher = json_get_text(decoded.as_slice(), "scy");
    e.network = json_get_text(decoded.as_slice(), "net");
    let tls = json_get_text(decoded.as_slice(), "tls");
    e.tls = is_text(&tls, "tls");
    Some(e)
}

/// The proxy entry that a share link describes, by its scheme; nothing for
/// an unknown scheme or a link that does not parse.
pub fn parse_proxy_link(link: &str) -> (r: Option<ProxyConfig>)
    ensures
        link_result(r, spec_link(link@)),
{
    let l = chars_of(link);
    let s = l.as_slice();
    proof {
        reveal_strlit("vmess://");
        reveal_strlit("vless://");
        reveal_strlit("trojan://");
        reveal_strlit("ss://");
        reveal_strlit("hysteria2://");
        reveal_strlit("hy2://");
        reveal_strlit("tuic://");
        reveal_strlit("anytls://");
    }
    if chars_start_with(s, chars_of("vmess://").as_slice()) {
        parse_vmess(s)
    } else if chars_start_with(s, chars_of("vless://").as_slice()) {
        parse_vless(s)
    } else if chars_start_with(s, chars_of("trojan://").as_slice()) {
        parse_trojan(s)
    } else if chars_start_with(s, chars_of("ss://").as_slice()) {
        parse_shadowsocks(s)
    } else if chars_start_with(s, chars_of("hysteria2://").as_slice()) || chars_start_with(s, chars_of("hy2://").as_slice()) {
        parse_hysteria2(s)
    } else if chars_start_with(s, chars_of("tuic://").as_slice()) {
        parse_tuic(s)
    } else if chars_start_with(s, chars_of("anytls://").as_slice()) {
        parse_anytls(s)
    } else {
        None
    }
}


/// The entries of the share links among some lines: each line trimmed,
/// blank lines and lines that are no link skipped.
pub open spec fn links_of(ls: Seq<Seq<char>>) -> Seq<LinkEntry>
    decreases ls.len(),
{
    if ls.len() == 0 {
        Seq::empty()
    } else {
        let prev = links_of(ls.drop_last());
        let t = trim(ls.last());
        if t.len() == 0 {
            prev
        } else {
            match spec_link(t) {
                Some(e) => prev.push(e),
                None => prev,
            }
        }
    }
}

/// The entries are those that `es` describes, in order.
pub open spec fn entries_match(v: Seq<ProxyConfig>, es: Seq<LinkEntry>) -> bool {
    &&& v.len() == es.len()
    &&& forall|i: int| 0 <= i < v.len() ==> entry_of(#[trigger] v[i]) == es[i] && link_defaults(v[i])
}

/// Why subscription content was refused.
#[derive(Debug, PartialEq, Eq, Structural)]
pub enum SubscriptionError {
    /// Neither YAML, nor base64 of share links, nor share links.
    Unrecognized,
}

/// The proxy entries of the share links in some text, one link per line.
pub fn parse_proxy_links(content: &str) -> (r: Result<Vec<ProxyConfig>, SubscriptionError>)
    ensures
        r is Ok && entries_match(r->Ok_0@, links_of(lines(content@))),
{
    let c = chars_of(content);
    let ls = lines_of(c.as_slice());
    let ghost lv = piece_views(ls@);
    let mut out: Vec<ProxyConfig> = Vec::new();
    let mut i: usize = 0;
    while i < ls.len()
        invariant
            i <= ls@.len(),
            lv == piece_views(ls@),
            entries_match(out@, links_of(lv.take(i as int))),
        decreases ls.len() - i,
    {
        assert(lv.take(i + 1).drop_last() =~= lv.take(i as int));
        let line = trim_chars(ls[i].as_slice());
        if line.len() > 0 {
            let text = string_of(line.as_slice());
            match parse_proxy_link(text.as_str()) {
                Some(p) => {
                    out.push(p);
                },
                None => {},
            }
        }
        i += 1;
    }
    assert(lv.take(ls@.len() as int) =~= lv);
    Ok(out)
}

/// `s` without any `c`.
pub open spec fn without(s: Seq<char>, c: char) -> Seq<char>
    decreases s.len(),
{
    if s.len() == 0 {
        s
    } else if s.last() == c {
        without(s.drop_last(), c)
    } else {
        without(s.drop_last(), c).push(s.last())
    }
}

/// Subscription content as the base64 and link readers see it: trimmed,
/// with every line break removed.
pub open spec fn cleaned(content: Seq<char>) -> Seq<char> {
    without(without(trim(content), '\n'), '\r')
}

/// The entries of subscription content that is not YAML: share links in
/// base64 (standard, else URL-safe) if that yields any, else share links
/// in the text itself, else nothing.
pub open spec fn spec_subscription_links(content: Seq<char>) -> Option<Seq<LinkEntry>> {
    let c = cleaned(content);
    let decoded = match base64_standard_decoded(c) {
        Some(b) => Some(b),
        None => base64_url_safe_decoded(c),
    };
    let from_base64 = match decoded {
        Some(b) => if valid_utf8(b) {
            links_of(lines(decode_utf8(b)))
        } else {
            Seq::empty()
        },
        None => Seq::empty(),
    };
    if from_base64.len() > 0 {
        Some(from_base64)
    } else if links_of(lines(c)).len() > 0 {
        Some(links_of(lines(c)))
    } else {
        None
    }
}

/// A configuration that holds only proxies: everything else as `Default`
/// gives it.
pub open spec fn only_proxies(c: Config) -> bool {
    &&& c.mixed_port is None
    &&& c.socks_port is None
    &&& c.port is None
    &&& !c.allow_lan
    &&& c.mode@.len() == 0
    &&& c.log_level@.len() == 0
    &&& c.proxy_groups@.len() == 0
    &&& c.rules@.len() == 0
    &&& !c.dns.enable
    &&& c.dns.nameserver@.len() == 0
    &&& c.dns.fallback@.len() == 0
    &&& c.subscription is None
}

/// Copies a text without one character.
fn without_char(s: &[char], c: char) -> (r: Vec<char>)
    ensures
        r@ == without(s@, c),
{
    let mut out: Vec<char> = Vec::new();
    let mut i: usize = 0;
    while i < s.len()
        invariant
            i <= s.len(),
            out@ == without(s@.take(i as int), c),
        decreases s.len() - i,
    {
        assert(s@.take(i + 1).drop_last() =~= s@.take(i as int));
        if s[i] != c {
            out.push(s[i]);
        }
        i += 1;
    }
    assert(s@.take(s.len() as int) =~= s@);
    out
}

/// Reads subscription content: the configuration that `yaml` holds when
/// the content parsed as a Clash YAML configuration, else the share links
/// in base64 or in plain text.
pub fn parse_subscribe(content: &str, yaml: Option<Config>) -> (r: Result<Config, SubscriptionError>)
    ensures
        yaml is Some ==> r == Ok::<Config, SubscriptionError>(yaml->Some_0),
        yaml is None ==> match spec_subscription_links(content@) {
            Some(es) => r is Ok && only_proxies(r->Ok_0) && entries_match(r->Ok_0.proxies@, es),
            None => r == Err::<Config, SubscriptionError>(SubscriptionError::Unrecognized),
        },
{
    if let Some(config) = yaml {
        return Ok(config);
    }
    let raw = chars_of(content);
    let t = trim_chars(raw.as_slice());
    let t1 = without_char(t.as_slice(), '\n');
    let t2 = without_char(t1.as_slice(), '\r');
    let c = string_of(t2.as_slice());
    let decoded = match base64_decode_standard(c.as_str()) {
        Some(b) => Some(b),
        None => base64_decode_url_safe(c.as_str()),
    };
    match decoded {
        Some(b) => match utf8_decode(b.as_slice()) {
            Some(text) => {
                let proxies = match parse_proxy_links(text.as_str()) {
                    Ok(p) => p,
                    Err(e) => {
                        return Err(e);
                    },
                };
                if proxies.len() > 0 {
                    let mut config = Config::empty();
                    config.proxies = proxies;
                    return Ok(config);
                }
            },
            None => {},
        },
        None => {},
    }
    let proxies = match parse_proxy_links(c.as_str()) {
        Ok(p) => p,
        Err(e) => {
            return Err(e);
        },
    };
    if proxies.len() > 0 {
        let mut config = Config::empty();
        config.proxies = proxies;
        return Ok(config);
    }
    Err(SubscriptionError::Unrecognized)
}

/// Copies subscription settings.
pub fn copy_subscription(s: &SubscriptionConfig) -> (r: SubscriptionConfig)
    ensures
        r.url@ == s.url@,
        r.interval_hours == s.interval_hours,
        r.enabled == s.enabled,
{
    SubscriptionConfig { url: s.url.clone(), interval_hours: s.interval_hours, enabled: s.enabled }
}

/// The subscription to refresh a configuration from: its subscription,
/// when there is one and it is enabled.
pub fn refresh_source(config: &Config) -> (r: Option<SubscriptionConfig>)
    ensures
        match config.subscription {
            Some(s) => if s.enabled {
                r is Some && r->Some_0.url@ == s.url@ && r->Some_0.interval_hours == s.interval_hours && r->Some_0.enabled
            } else {
                r is None
            },
            None => r is None,
        },
{
    match &config.subscription {
        Some(s) => if s.enabled {
            Some(copy_subscription(s))
        } else {
            None
        },
        None => None,
    }
}

/// The configuration read from fresh content keeps the subscription it
/// came from; the result names that subscription's URL.
pub fn finish_refresh(updated: Config, subscription: SubscriptionConfig, metadata: SubscriptionMetadata) -> (r: (Config, SubscriptionRefreshResult))
    ensures
        r.0.proxies == updated.proxies,
        r.0.proxy_groups == updated.proxy_groups,
        r.0.rules == updated.rules,
        r.0.subscription matches Some(s) && s.url@ == subscription.url@ && s.interval_hours == subscription.interval_hours
            && s.enabled == subscription.enabled,
        r.1.source@ == subscription.url@,
        r.1.metadata == metadata,
{
    let source = subscription.url.clone();
    let mut config = updated;
    config.subscription = Some(subscription);
    (config, SubscriptionRefreshResult { metadata, source })
}


/// What is left and what is used add up to the total, while the use does
/// not exceed it.
pub proof fn law_remaining_and_used(upload: Option<u64>, download: Option<u64>, total: u64)
    requires
        sat_add(or_zero(upload), or_zero(download)) <= total,
    ensures
        sat_sub(total, sat_add(or_zero(upload), or_zero(download))) + sat_add(or_zero(upload), or_zero(download)) == total,
{
}

/// The last query pair named `key` carries the value `v`.
pub open spec fn last_value_is(pairs: Seq<(Seq<char>, Seq<char>)>, key: Seq<char>, v: Seq<char>) -> bool {
    exists|i: int|
        0 <= i < pairs.len() && #[trigger] pairs[i] == (key, v) && forall|j: int| i < j < pairs.len() ==> (#[trigger] pairs[j]).0 != key
}

proof fn lemma_last_param_is_last(pairs: Seq<(Seq<char>, Seq<char>)>, key: Seq<char>, v: Seq<char>)
    ensures
        last_param(pairs, key) == Some(v) <==> last_value_is(pairs, key, v),
    decreases pairs.len(),
{
    if pairs.len() > 0 {
        let init = pairs.drop_last();
        let n = pairs.len() - 1;
        lemma_last_param_is_last(init, key, v);
        if pairs.last().0 == key {
            if pairs.last().1 == v {
                assert(pairs[n] == (key, v));
            }
            if last_value_is(pairs, key, v) {
                let i = choose|i: int|
                    0 <= i < pairs.len() && #[trigger] pairs[i] == (key, v) && forall|j: int|
                        i < j < pairs.len() ==> (#[trigger] pairs[j]).0 != key;
                if i < n {
                    assert(pairs[n].0 != key);
                }
            }
        } else {
            if last_value_is(init, key, v) {
                let i = choose|i: int|
                    0 <= i < init.len() && #[trigger] init[i] == (key, v) && forall|j: int|
                        i < j < init.len() ==> (#[trigger] init[j]).0 != key;
                assert(pairs[i] == init[i]);
                assert forall|j: int| i < j < pairs.len() implies (#[trigger] pairs[j]).0 != key by {
                    if j < n {
                        assert(pairs[j] == init[j]);
                    }
                }
            }
            if last_value_is(pairs, key, v) {
                let i = choose|i: int|
                    0 <= i < pairs.len() && #[trigger] pairs[i] == (key, v) && forall|j: int|
                        i < j < pairs.len() ==> (#[trigger] pairs[j]).0 != key;
                assert(i != n);
                assert(init[i] == pairs[i]);
                assert forall|j: int| i < j < init.len() implies (#[trigger] init[j]).0 != key by {
                    assert(init[j] == pairs[j]);
                }
            }
        }
    }
}

/// A `vless://` link gives an entry exactly when its URL parses and has a
/// name; the entry is of type `vless`, for the URL's server and port (443
/// by default), with the user part as UUID, and with TLS exactly when the
/// last `security` query value is `tls` or `reality`.
pub proof fn law_vless_link(link: Seq<char>)
    requires
        starts_with(link, "vless://"@),
    ensures
        ({
            let u = "vless://"@ + link.skip(8);
            let pairs = url_query_pairs(u);
            &&& spec_link(link) is Some <==> url_parses(u) && link_name(u) is Some
            &&& spec_link(link) matches Some(e) ==> {
                &&& e.proxy_type == "vless"@
                &&& e.server == link_server(u)
                &&& e.port == link_port(u, 443)
                &&& e.uuid == Some(url_username(u))
                &&& e.password is None
                &&& (e.tls <==> (last_value_is(pairs, "security"@, "tls"@) || last_value_is(pairs, "security"@, "reality"@)))
                &&& e.network == last_param(pairs, "type"@)
                &&& e.sni == last_param(pairs, "sni"@)
                &&& e.flow == last_param(pairs, "flow"@)
            }
        }),
{
    reveal_strlit("vless://");
    reveal_strlit("vmess://");
    assert("vless://"@ =~= seq!['v', 'l', 'e', 's', 's', ':', '/', '/']);
    assert("vmess://"@ =~= seq!['v', 'm', 'e', 's', 's', ':', '/', '/']);
    let sl = seq!['v', 'l', 'e', 's', 's', ':', '/', '/'];
    let sm = seq!['v', 'm', 'e', 's', 's', ':', '/', '/'];
    assert(sl[1] == 'l');
    assert(sm[1] == 'm');
    assert('l' != 'm');
    assert(sl[1] != sm[1]);
    assert("vless://"@ != "vmess://"@);
    assert(link.take(8) == "vless://"@);
    assert(!starts_with(link, "vmess://"@));
    let u = "vless://"@ + link.skip(8);
    let pairs = url_query_pairs(u);
    lemma_last_param_is_last(pairs, "security"@, "tls"@);
    lemma_last_param_is_last(pairs, "security"@, "reality"@);
}
/// A `trojan://` link gives an entry exactly when its URL parses and has a
/// name; the entry is of type `trojan`, for the URL's server and port (443
/// by default), with the user part as password, and always with TLS.
pub proof fn law_trojan_link(link: Seq<char>)
    requires
        starts_with(link, "trojan://"@),
    ensures
        ({
            let u = "trojan://"@ + link.skip(9);
            &&& spec_link(link) is Some <==> url_parses(u) && link_name(u) is Some
            &&& spec_link(link) matches Some(e) ==> {
                &&& e.proxy_type == "trojan"@
                &&& e.server == link_server(u)
                &&& e.port == link_port(u, 443)
                &&& e.password == Some(url_username(u))
                &&& e.uuid is None
                &&& e.tls
            }
        }),
{
    reveal_strlit("trojan://");
    reveal_strlit("vless://");
    reveal_strlit("vmess://");
    let st = seq!['t', 'r', 'o', 'j', 'a', 'n', ':', '/', '/'];
    assert("trojan://"@ =~= st);
    assert("vless://"@ =~= seq!['v', 'l', 'e', 's', 's', ':', '/', '/']);
    assert("vmess://"@ =~= seq!['v', 'm', 'e', 's', 's', ':', '/', '/']);
    assert(link.take(9) == st);
    assert(link[0] == link.take(9)[0]);
    assert(st[0] == 't');
    assert(!starts_with(link, "vmess://"@)) by {
        if starts_with(link, "vmess://"@) {
            assert(link[0] == link.take(8)[0]);
            assert(seq!['v', 'm', 'e', 's', 's', ':', '/', '/'][0] == 'v');
        }
    }
    assert(!starts_with(link, "vless://"@)) by {
        if starts_with(link, "vless://"@) {
            assert(link[0] == link.take(8)[0]);
            assert(seq!['v', 'l', 'e', 's', 's', ':', '/', '/'][0] == 'v');
        }
    }
}
} // verus!
