//! The configuration model: proxies, proxy groups, rules and settings.
use vstd::prelude::*;

use crate::target::host_port;
use crate::text::{decimal, decimal_string, is_ascii_text, push_str, str_eq, upper_char};

verus! {

/// An extra field of a proxy entry that the model does not name.
pub enum ExtraValue {
    /// A text value.
    Text(String),
    /// Any other value, kept in its JSON form.
    Json(String),
}

/// One configured outbound proxy.
pub struct ProxyConfig {
    pub name: String,
    pub proxy_type: String,
    pub server: String,
    pub port: u16,
    pub password: Option<String>,
    pub uuid: Option<String>,
    pub cipher: Option<String>,
    pub network: Option<String>,
    pub tls: bool,
    pub sni: Option<String>,
    pub skip_cert_verify: bool,
    pub udp: bool,
    pub flow: Option<String>,
    pub up: Option<u32>,
    pub down: Option<u32>,
    pub alpn: Option<Vec<String>>,
    pub obfs: Option<String>,
    /// Fields beyond the named ones, in the order they were read.
    pub extra: Vec<(String, ExtraValue)>,
}

/// One configured proxy group.
pub struct ProxyGroupConfig {
    pub name: String,
    pub group_type: String,
    pub proxies: Vec<String>,
    pub url: Option<String>,
    pub interval: Option<u64>,
    pub tolerance: Option<u64>,
    pub lazy: bool,
    pub selected: Option<String>,
}

/// DNS settings.
pub struct DnsConfig {
    pub enable: bool,
    pub nameserver: Vec<String>,
    pub fallback: Vec<String>,
}

/// Subscription settings.
pub struct SubscriptionConfig {
    pub url: String,
    pub interval_hours: Option<u64>,
    pub enabled: bool,
}

/// Main configuration.
pub struct Config {
    pub mixed_port: Option<u16>,
    pub socks_port: Option<u16>,
    pub port: Option<u16>,
    pub allow_lan: bool,
    pub mode: String,
    pub log_level: String,
    pub proxies: Vec<ProxyConfig>,
    pub proxy_groups: Vec<ProxyGroupConfig>,
    pub rules: Vec<String>,
    pub dns: DnsConfig,
    pub subscription: Option<SubscriptionConfig>,
}

/// The mode that a configuration file without one is read with.
pub fn default_mode() -> (r: String)
    ensures
        r@ == "rule"@,
{
    String::from_str("rule")
}

/// The log level that a configuration file without one is read with.
pub fn default_log_level() -> (r: String)
    ensures
        r@ == "info"@,
{
    String::from_str("info")
}

/// The value of boolean settings that default to on.
pub fn default_true() -> (r: bool)
    ensures
        r,
{
    true
}

pub open spec fn empty_text() -> Seq<char> {
    Seq::empty()
}

impl ProxyConfig {
    /// An entry with every field empty, zero or off.
    pub fn empty() -> (r: ProxyConfig)
        ensures
            r.is_empty(),
    {
        ProxyConfig {
            name: String::new(),
            proxy_type: String::new(),
            server: String::new(),
            port: 0,
            password: None,
            uuid: None,
            cipher: None,
            network: None,
            tls: false,
            sni: None,
            skip_cert_verify: false,
            udp: false,
            flow: None,
            up: None,
            down: None,
            alpn: None,
            obfs: None,
            extra: Vec::new(),
        }
    }

    pub open spec fn is_empty(&self) -> bool {
        &&& self.name@ == empty_text()
        &&& self.proxy_type@ == empty_text()
        &&& self.server@ == empty_text()
        &&& self.port == 0
        &&& self.password is None
        &&& self.uuid is None
        &&& self.cipher is None
        &&& self.network is None
        &&& !self.tls
        &&& self.sni is None
        &&& !self.skip_cert_verify
        &&& !self.udp
        &&& self.flow is None
        &&& self.up is None
        &&& self.down is None
        &&& self.alpn is None
        &&& self.obfs is None
        &&& self.extra@.len() == 0
    }

    /// The text value of the extra field `key`, if the entry has one.
    pub open spec fn spec_extra_text(&self, key: Seq<char>) -> Option<Seq<char>> {
        extra_text_in(self.extra@, key)
    }

    /// Looks up the text value of an extra field by name.
    pub fn extra_text(&self, key: &str) -> (r: Option<String>)
        ensures
            match r {
                Some(v) => self.spec_extra_text(key@) == Some(v@),
                None => self.spec_extra_text(key@) is None,
            },
    {
        let mut i: usize = 0;
        while i < self.extra.len()
            invariant
                i <= self.extra@.len(),
                forall|j: int| 0 <= j < i ==> (#[trigger] self.extra@[j]).0@ != key@,
            decreases self.extra.len() - i,
        {
            if str_eq(self.extra[i].0.as_str(), key) {
                proof {
                    lemma_extra_text_at(self.extra@, key, i as int);
                }
                return match &self.extra[i].1 {
                    ExtraValue::Text(t) => Some(t.clone()),
                    ExtraValue::Json(_) => None,
                };
            }
            i += 1;
        }
        proof {
            lemma_extra_text_absent(self.extra@, key@);
        }
        None
    }
}

/// The text value of the first field named `key`.
pub open spec fn extra_text_in(extra: Seq<(String, ExtraValue)>, key: Seq<char>) -> Option<Seq<char>>
    decreases extra.len(),
{
    if extra.len() == 0 {
        None
    } else if extra[0].0@ == key {
        match extra[0].1 {
            ExtraValue::Text(t) => Some(t@),
            ExtraValue::Json(_) => None,
        }
    } else {
        extra_text_in(extra.drop_first(), key)
    }
}

proof fn lemma_extra_text_at(extra: Seq<(String, ExtraValue)>, key: &str, i: int)
    requires
        0 <= i < extra.len(),
        extra[i].0@ == key@,
        forall|j: int| 0 <= j < i ==> (#[trigger] extra[j]).0@ != key@,
    ensures
        extra_text_in(extra, key@) == match extra[i].1 {
            ExtraValue::Text(t) => Some(t@),
            ExtraValue::Json(_) => None::<Seq<char>>,
        },
    decreases i,
{
    if i > 0 {
        assert(extra[0].0@ != key@);
        assert forall|j: int| 0 <= j < i - 1 implies (#[trigger] extra.drop_first()[j]).0@ != key@ by {
            assert(extra.drop_first()[j] == extra[j + 1]);
        }
        lemma_extra_text_at(extra.drop_first(), key, i - 1);
    }
}

proof fn lemma_extra_text_absent(extra: Seq<(String, ExtraValue)>, key: Seq<char>)
    requires
        forall|j: int| 0 <= j < extra.len() ==> (#[trigger] extra[j]).0@ != key,
    ensures
        extra_text_in(extra, key) is None,
    decreases extra.len(),
{
    if extra.len() > 0 {
        assert(extra[0].0@ != key);
        assert forall|j: int| 0 <= j < extra.len() - 1 implies (#[trigger] extra.drop_first()[j]).0@ != key by {
            assert(extra.drop_first()[j] == extra[j + 1]);
        }
        lemma_extra_text_absent(extra.drop_first(), key);
    }
}

impl ProxyGroupConfig {
    /// A group with the given name, type and members, and nothing else set.
    pub fn new(name: String, group_type: String, proxies: Vec<String>) -> (r: ProxyGroupConfig)
        ensures
            r.name == name,
            r.group_type == group_type,
            r.proxies == proxies,
            r.url is None,
            r.interval is None,
            r.tolerance is None,
            !r.lazy,
            r.selected is None,
    {
        ProxyGroupConfig {
            name,
            group_type,
            proxies,
            url: None,
            interval: None,
            tolerance: None,
            lazy: false,
            selected: None,
        }
    }
}

impl DnsConfig {
    /// DNS settings with DNS off and no servers, as `Default` gives them.
    pub fn empty() -> (r: DnsConfig)
        ensures
            !r.enable,
            r.nameserver@.len() == 0,
            r.fallback@.len() == 0,
    {
        DnsConfig { enable: false, nameserver: Vec::new(), fallback: Vec::new() }
    }
}

impl Config {
    /// The configuration that `Default` gives: no ports, no proxies, no
    /// groups, no rules, empty mode and log level.
    pub fn empty() -> (r: Config)
        ensures
            r.mixed_port is None,
            r.socks_port is None,
            r.port is None,
            !r.allow_lan,
            r.mode@ == empty_text(),
            r.log_level@ == empty_text(),
            r.proxies@.len() == 0,
            r.proxy_groups@.len() == 0,
            r.rules@.len() == 0,
            !r.dns.enable,
            r.dns.nameserver@.len() == 0,
            r.dns.fallback@.len() == 0,
            r.subscription is None,
    {
        Config {
            mixed_port: None,
            socks_port: None,
            port: None,
            allow_lan: false,
            mode: String::new(),
            log_level: String::new(),
            proxies: Vec::new(),
            proxy_groups: Vec::new(),
            rules: Vec::new(),
            dns: DnsConfig::empty(),
            subscription: None,
        }
    }
}

/// What `str::to_uppercase` (Unicode upper-casing) gives for a text.
pub uninterp spec fn unicode_upper(s: Seq<char>) -> Seq<char>;

/// `str::to_uppercase`: the Unicode upper-case form. The result is claimed
/// to be `unicode_upper` of the argument, and, as std documents for ASCII
/// text, the ASCII upper case of an ASCII argument.
#[verifier::external_body]
fn to_uppercase(s: &str) -> (r: String)
    ensures
        r@ == unicode_upper(s@),
        is_ascii_text(s@) ==> r@ == s@.map_values(|c: char| upper_char(c)),
{
    s.to_uppercase()
}

impl ProxyConfig {
    /// The entry as it is listed: `[{TYPE}] {name} ({server}:{port})`.
    pub fn summary_line(&self) -> (r: String)
        ensures
            r@ == "["@ + unicode_upper(self.proxy_type@) + "] "@ + self.name@ + " ("@ + host_port(self.server@, self.port)
                + ")"@,
    {
        let mut s = String::new();
        push_str(&mut s, "[");
        let t = to_uppercase(self.proxy_type.as_str());
        push_str(&mut s, t.as_str());
        push_str(&mut s, "] ");
        push_str(&mut s, self.name.as_str());
        push_str(&mut s, " (");
        push_str(&mut s, self.server.as_str());
        push_str(&mut s, ":");
        let p = decimal_string(self.port as u64);
        push_str(&mut s, p.as_str());
        push_str(&mut s, ")");
        proof {
            reveal_strlit("[");
            reveal_strlit("] ");
            reveal_strlit(" (");
            reveal_strlit(":");
            reveal_strlit(")");
            assert(s@ =~= "["@ + unicode_upper(self.proxy_type@) + "] "@ + self.name@ + " ("@ + host_port(
                self.server@,
                self.port,
            ) + ")"@);
        }
        s
    }
}

impl ProxyGroupConfig {
    /// The group as it is listed: `[{type}] {name} ({n} proxies)`, with
    /// `, selected: {proxy}` before the parenthesis closes when a proxy is
    /// selected.
    pub fn summary_line(&self) -> (r: String)
        ensures
            r@ == "["@ + self.group_type@ + "] "@ + self.name@ + " ("@ + decimal(self.proxies@.len()) + " proxies"@
                + match self.selected {
                Some(sel) => ", selected: "@ + sel@,
                None => Seq::<char>::empty(),
            } + ")"@,
    {
        let mut s = String::new();
        push_str(&mut s, "[");
        push_str(&mut s, self.group_type.as_str());
        push_str(&mut s, "] ");
        push_str(&mut s, self.name.as_str());
        push_str(&mut s, " (");
        let n = decimal_string(self.proxies.len() as u64);
        push_str(&mut s, n.as_str());
        push_str(&mut s, " proxies");
        match &self.selected {
            Some(sel) => {
                push_str(&mut s, ", selected: ");
                push_str(&mut s, sel.as_str());
            },
            None => {},
        }
        push_str(&mut s, ")");
        proof {
            reveal_strlit("[");
            reveal_strlit("] ");
            reveal_strlit(" (");
            reveal_strlit(" proxies");
            reveal_strlit(", selected: ");
            reveal_strlit(")");
        }
        s
    }
}

} // verus!
