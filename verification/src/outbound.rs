//! Outbound selection: the configured proxies and proxy groups, their health,
//! and how a policy name resolves to the proxy that carries a connection.
use vstd::prelude::*;

use crate::clock::{now_unix, Clock};
use crate::config::{Config, ProxyConfig, ProxyGroupConfig};
use crate::text::{
    chars_of, contains_name, copy_opt, copy_strings, eq_ignore_ascii_case, eq_ignore_case, index_of_name,
    is_ascii_text, lemma_index_of_name, lemma_index_of_name_exact, lower, lower_chars, opt_view, str_eq,
    string_of, views,
};

verus! {

/// A proxy group at runtime.
pub struct ProxyGroup {
    pub name: String,
    pub group_type: String,
    pub proxies: Vec<String>,
    pub selected: Option<String>,
}

/// What the runtime has selected in a group.
pub struct ProxyGroupState {
    pub name: String,
    pub group_type: String,
    pub selected: Option<String>,
}

/// The failure record of a proxy.
pub struct ProxyFailureInfo {
    pub name: String,
    pub message: String,
    pub first_failed_unix: u64,
    pub last_failed_unix: u64,
    pub failures: u32,
}

struct ProxyFailureState {
    message: String,
    first_failed_unix: u64,
    last_failed_unix: u64,
    failures: u32,
}

/// A usable configured proxy: its name and its protocol in lower case.
pub struct ProxyEntry {
    pub name: String,
    pub protocol: String,
}

/// The proxies and groups of a configuration, with their health.
pub struct OutboundManager {
    proxies: Vec<ProxyEntry>,
    groups: Vec<ProxyGroup>,
    unhealthy_until: Vec<(String, u64)>,
    failure_reasons: Vec<(String, ProxyFailureState)>,
    clock: Clock,
}

/// How a proxy type is carried at runtime.
pub enum ProxyKind {
    AnyTls,
    Socks5,
    Http,
    Vless,
    Vmess,
    /// Known, but not carried yet.
    Skipped,
    Unsupported,
}

/// The runtime kind of a proxy type, after Unicode lower-casing.
pub open spec fn proxy_kind_of(lowered: Seq<char>) -> ProxyKind {
    if lowered == "anytls"@ {
        ProxyKind::AnyTls
    } else if lowered == "socks5"@ || lowered == "socks"@ {
        ProxyKind::Socks5
    } else if lowered == "http"@ {
        ProxyKind::Http
    } else if lowered == "vless"@ {
        ProxyKind::Vless
    } else if lowered == "vmess"@ {
        ProxyKind::Vmess
    } else if lowered == "trojan"@ || lowered == "hysteria2"@ || lowered == "hy2"@ || lowered == "ss"@
        || lowered == "shadowsocks"@ {
        ProxyKind::Skipped
    } else {
        ProxyKind::Unsupported
    }
}

/// What `str::to_lowercase` (Unicode lower-casing) gives for a text.
pub uninterp spec fn unicode_lower(s: Seq<char>) -> Seq<char>;

/// `str::to_lowercase`: the Unicode lower-case form. The result is claimed to
/// be `unicode_lower` of the argument, and, as std documents for ASCII text,
/// the ASCII lower case of an ASCII argument.
#[verifier::external_body]
fn to_lowercase(s: &str) -> (r: String)
    ensures
        r@ == unicode_lower(s@),
        is_ascii_text(s@) ==> r@ == lower(s@),
{
    s.to_lowercase()
}

/// The runtime kind of a configured proxy.
pub fn proxy_kind(proxy_type: &str) -> (r: ProxyKind)
    ensures
        r == proxy_kind_of(unicode_lower(proxy_type@)),
        is_ascii_text(proxy_type@) ==> r == proxy_kind_of(lower(proxy_type@)),
{
    let l = to_lowercase(proxy_type);
    let s = l.as_str();
    if str_eq(s, "anytls") {
        ProxyKind::AnyTls
    } else if str_eq(s, "socks5") || str_eq(s, "socks") {
        ProxyKind::Socks5
    } else if str_eq(s, "http") {
        ProxyKind::Http
    } else if str_eq(s, "vless") {
        ProxyKind::Vless
    } else if str_eq(s, "vmess") {
        ProxyKind::Vmess
    } else if str_eq(s, "trojan") || str_eq(s, "hysteria2") || str_eq(s, "hy2") || str_eq(s, "ss") || str_eq(
        s,
        "shadowsocks",
    ) {
        ProxyKind::Skipped
    } else {
        ProxyKind::Unsupported
    }
}

/// The proxy types that are carried at runtime are exactly AnyTLS, SOCKS5
/// (`socks5` or `socks`), HTTP, VLESS and VMess, by their lower-cased type;
/// Trojan, Shadowsocks, Hysteria2 and unknown types are not.
pub proof fn law_carried_types(lowered: Seq<char>)
    ensures
        is_carried(proxy_kind_of(lowered)) <==> (lowered == "anytls"@ || lowered == "socks5"@ || lowered == "socks"@
            || lowered == "http"@ || lowered == "vless"@ || lowered == "vmess"@),
{
}

pub open spec fn is_carried(k: ProxyKind) -> bool {
    k is AnyTls || k is Socks5 || k is Http || k is Vless || k is Vmess
}

// ---------------------------------------------------------------------------
// Model
// ---------------------------------------------------------------------------

pub open spec fn entry_names(ps: Seq<ProxyEntry>) -> Seq<Seq<char>> {
    ps.map_values(|p: ProxyEntry| p.name@)
}

pub open spec fn group_names(gs: Seq<ProxyGroup>) -> Seq<Seq<char>> {
    gs.map_values(|g: ProxyGroup| g.name@)
}

pub open spec fn deadline_names(us: Seq<(String, u64)>) -> Seq<Seq<char>> {
    us.map_values(|u: (String, u64)| u.0@)
}

spec fn failure_names(fs: Seq<(String, ProxyFailureState)>) -> Seq<Seq<char>> {
    fs.map_values(|f: (String, ProxyFailureState)| f.0@)
}

/// Number of groups not yet expanded.
pub open spec fn unvisited(v: Seq<bool>) -> nat
    decreases v.len(),
{
    if v.len() == 0 {
        0
    } else {
        unvisited(v.drop_last()) + if v.last() {
            0nat
        } else {
            1nat
        }
    }
}

/// The groups expanded in `a` or in `b`, over the length of `a`.
pub open spec fn merge(a: Seq<bool>, b: Seq<bool>) -> Seq<bool> {
    Seq::new(a.len(), |i: int| a[i] || (i < b.len() && b[i]))
}

pub open spec fn covers(big: Seq<bool>, small: Seq<bool>) -> bool {
    big.len() == small.len() && forall|i: int| 0 <= i < small.len() && small[i] ==> #[trigger] big[i]
}

pub proof fn lemma_unvisited_update(v: Seq<bool>, g: int)
    requires
        0 <= g < v.len(),
        !v[g],
    ensures
        unvisited(v.update(g, true)) + 1 == unvisited(v),
    decreases v.len(),
{
    if g < v.len() - 1 {
        assert(v.update(g, true).drop_last() =~= v.drop_last().update(g, true));
        lemma_unvisited_update(v.drop_last(), g);
    } else {
        assert(v.update(g, true).drop_last() =~= v.drop_last());
    }
}

pub proof fn lemma_unvisited_covers(big: Seq<bool>, small: Seq<bool>)
    requires
        covers(big, small),
    ensures
        unvisited(big) <= unvisited(small),
    decreases small.len(),
{
    if small.len() > 0 {
        assert(covers(big.drop_last(), small.drop_last()));
        lemma_unvisited_covers(big.drop_last(), small.drop_last());
    }
}

pub proof fn lemma_merge_covers(a: Seq<bool>, b: Seq<bool>)
    ensures
        covers(merge(a, b), a),
        unvisited(merge(a, b)) <= unvisited(a),
        covers(b, a) ==> merge(a, b) == b,
{
    lemma_unvisited_covers(merge(a, b), a);
    if covers(b, a) {
        assert(merge(a, b) =~= b);
    }
}

impl OutboundManager {
    pub closed spec fn proxy_list(&self) -> Seq<ProxyEntry> {
        self.proxies@
    }

    pub closed spec fn group_list(&self) -> Seq<ProxyGroup> {
        self.groups@
    }

    pub closed spec fn deadlines(&self) -> Seq<(String, u64)> {
        self.unhealthy_until@
    }

    /// Each name occurs once in each table.
    pub closed spec fn wf(&self) -> bool {
        &&& entry_names(self.proxies@).no_duplicates()
        &&& group_names(self.groups@).no_duplicates()
        &&& deadline_names(self.unhealthy_until@).no_duplicates()
        &&& failure_names(self.failure_reasons@).no_duplicates()
    }

    pub open spec fn n_groups(&self) -> nat {
        self.group_list().len()
    }

    pub open spec fn proxy_index(&self, name: Seq<char>) -> int {
        index_of_name(entry_names(self.proxy_list()), name)
    }

    pub open spec fn group_index(&self, name: Seq<char>) -> int {
        index_of_name(group_names(self.group_list()), name)
    }

    /// A proxy is available unless it is marked unhealthy until a later time.
    pub open spec fn is_available(&self, name: Seq<char>, now: u64) -> bool {
        let i = index_of_name(deadline_names(self.deadlines()), name);
        i < 0 || self.deadlines()[i].1 <= now
    }

    /// The configured protocol of a proxy name contains `proto`, directly or
    /// through the members of groups not yet expanded in `v`.
    pub open spec fn contains_protocol(&self, name: Seq<char>, proto: Seq<char>, v: Seq<bool>) -> (
        bool,
        Seq<bool>,
    )
        decreases unvisited(v), 0nat,
    {
        let p = self.proxy_index(name);
        if p >= 0 {
            (eq_ignore_case(self.proxy_list()[p].protocol@, proto), v)
        } else {
            let g = self.group_index(name);
            if g < 0 || v.len() != self.n_groups() || g >= v.len() || v[g] {
                (false, v)
            } else {
                proof {
                    lemma_unvisited_update(v, g);
                }
                self.contains_members(views(self.group_list()[g].proxies@), 0, proto, v.update(g, true))
            }
        }
    }

    pub open spec fn contains_members(
        &self,
        members: Seq<Seq<char>>,
        i: int,
        proto: Seq<char>,
        v: Seq<bool>,
    ) -> (bool, Seq<bool>)
        decreases unvisited(v), members.len() - i + 1,
    {
        if i < 0 || i >= members.len() {
            (false, v)
        } else {
            let (b, v1) = self.contains_protocol(members[i], proto, v);
            let v2 = merge(v, v1);
            proof {
                lemma_merge_covers(v, v1);
            }
            if b {
                (true, v2)
            } else {
                self.contains_members(members, i + 1, proto, v2)
            }
        }
    }

    pub open spec fn fresh(&self) -> Seq<bool> {
        Seq::new(self.n_groups(), |i: int| false)
    }

    /// Whether a member reaches an AnyTLS proxy.
    pub open spec fn reaches_anytls(&self, name: Seq<char>) -> bool {
        self.contains_protocol(name, "anytls"@, self.fresh()).0
    }

    /// The members that reach an AnyTLS proxy, in order.
    pub open spec fn anytls_members(&self, members: Seq<Seq<char>>) -> Seq<Seq<char>>
        decreases members.len(),
    {
        if members.len() == 0 {
            Seq::empty()
        } else {
            let r = self.anytls_members(members.drop_last());
            if self.reaches_anytls(members.last()) {
                r.push(members.last())
            } else {
                r
            }
        }
    }

    /// Group members in the order they are tried: the AnyTLS ones when there
    /// are any, else all of them.
    pub open spec fn preferred(&self, members: Seq<Seq<char>>) -> Seq<Seq<char>> {
        let f = self.anytls_members(members);
        if f.len() == 0 {
            members
        } else {
            f
        }
    }

    /// Depth-first resolution of a policy name to the proxy that carries the
    /// connection, expanding each group at most once (`v` marks the groups
    /// already expanded). Returns the proxy name and the expanded groups.
    pub open spec fn resolve_name(
        &self,
        name: Seq<char>,
        excluded: Seq<Seq<char>>,
        now: u64,
        v: Seq<bool>,
    ) -> (Option<Seq<char>>, Seq<bool>)
        decreases unvisited(v), 0nat,
    {
        if name == "DIRECT"@ {
            (Some("DIRECT"@), v)
        } else if name == "REJECT"@ {
            (Some("REJECT"@), v)
        } else if self.proxy_index(name) >= 0 {
            if excluded.contains(name) || !self.is_available(name, now) {
                (None, v)
            } else {
                (Some(name), v)
            }
        } else {
            let g = self.group_index(name);
            if g < 0 || v.len() != self.n_groups() || g >= v.len() || v[g] {
                (None, v)
            } else {
                let group = self.group_list()[g];
                let v1 = v.update(g, true);
                proof {
                    lemma_unvisited_update(v, g);
                }
                let (r1, v2) = match group.selected {
                    Some(s) => self.resolve_name(s@, excluded, now, v1),
                    None => (None, v1),
                };
                let v3 = merge(v1, v2);
                proof {
                    lemma_merge_covers(v1, v2);
                }
                if r1 is Some {
                    (r1, v3)
                } else {
                    self.resolve_members(self.preferred(views(group.proxies@)), 0, excluded, now, v3)
                }
            }
        }
    }

    pub open spec fn resolve_members(
        &self,
        members: Seq<Seq<char>>,
        i: int,
        excluded: Seq<Seq<char>>,
        now: u64,
        v: Seq<bool>,
    ) -> (Option<Seq<char>>, Seq<bool>)
        decreases unvisited(v), members.len() - i + 1,
    {
        if i < 0 || i >= members.len() {
            (None, v)
        } else {
            let (r, v1) = self.resolve_name(members[i], excluded, now, v);
            let v2 = merge(v, v1);
            proof {
                lemma_merge_covers(v, v1);
            }
            if r is Some {
                (r, v2)
            } else {
                self.resolve_members(members, i + 1, excluded, now, v2)
            }
        }
    }

    /// The proxy that a policy name resolves to at time `now`.
    pub open spec fn spec_resolve(&self, name: Seq<char>, excluded: Seq<Seq<char>>, now: u64) -> Option<
        Seq<char>,
    > {
        self.resolve_name(name, excluded, now, self.fresh()).0
    }
}


impl OutboundManager {
    fn proxy_position(&self, name: &str) -> (r: Option<usize>)
        ensures
            match r {
                Some(i) => i < self.proxy_list().len() && self.proxy_index(name@) == i,
                None => self.proxy_index(name@) == -1,
            },
    {
        let mut i: usize = 0;
        while i < self.proxies.len()
            invariant
                i <= self.proxies@.len(),
                forall|j: int| 0 <= j < i ==> #[trigger] entry_names(self.proxies@)[j] != name@,
            decreases self.proxies.len() - i,
        {
            if str_eq(self.proxies[i].name.as_str(), name) {
                proof {
                    lemma_index_of_name_exact(entry_names(self.proxies@), name@, i as int);
                }
                return Some(i);
            }
            i += 1;
        }
        proof {
            lemma_index_of_name_exact(entry_names(self.proxies@), name@, -1);
        }
        None
    }

    fn group_position(&self, name: &str) -> (r: Option<usize>)
        ensures
            match r {
                Some(i) => i < self.group_list().len() && self.group_index(name@) == i,
                None => self.group_index(name@) == -1,
            },
    {
        let mut i: usize = 0;
        while i < self.groups.len()
            invariant
                i <= self.groups@.len(),
                forall|j: int| 0 <= j < i ==> #[trigger] group_names(self.groups@)[j] != name@,
            decreases self.groups.len() - i,
        {
            if str_eq(self.groups[i].name.as_str(), name) {
                proof {
                    lemma_index_of_name_exact(group_names(self.groups@), name@, i as int);
                }
                return Some(i);
            }
            i += 1;
        }
        proof {
            lemma_index_of_name_exact(group_names(self.groups@), name@, -1);
        }
        None
    }

    fn deadline_position(&self, name: &str) -> (r: Option<usize>)
        ensures
            match r {
                Some(i) => i < self.deadlines().len() && index_of_name(
                    deadline_names(self.deadlines()),
                    name@,
                ) == i,
                None => index_of_name(deadline_names(self.deadlines()), name@) == -1,
            },
    {
        let mut i: usize = 0;
        while i < self.unhealthy_until.len()
            invariant
                i <= self.unhealthy_until@.len(),
                forall|j: int|
                    0 <= j < i ==> #[trigger] deadline_names(self.unhealthy_until@)[j] != name@,
            decreases self.unhealthy_until.len() - i,
        {
            if str_eq(self.unhealthy_until[i].0.as_str(), name) {
                proof {
                    lemma_index_of_name_exact(deadline_names(self.unhealthy_until@), name@, i as int);
                }
                return Some(i);
            }
            i += 1;
        }
        proof {
            lemma_index_of_name_exact(deadline_names(self.unhealthy_until@), name@, -1);
        }
        None
    }

    /// Whether a proxy may be used at time `now`.
    pub fn is_proxy_available(&self, name: &str, now: u64) -> (r: bool)
        ensures
            r == self.is_available(name@, now),
    {
        match self.deadline_position(name) {
            Some(i) => self.unhealthy_until[i].1 <= now,
            None => true,
        }
    }

    fn contains_protocol_in(&self, name: &str, proto: &str, visited: &mut Vec<bool>) -> (r: bool)
        requires
            old(visited)@.len() == self.n_groups(),
        ensures
            covers(final(visited)@, old(visited)@),
            (r, final(visited)@) == self.contains_protocol(name@, proto@, old(visited)@),
        decreases unvisited(old(visited)@),
    {
        if let Some(p) = self.proxy_position(name) {
            return eq_ignore_ascii_case(self.proxies[p].protocol.as_str(), proto);
        }
        match self.group_position(name) {
            None => false,
            Some(g) => {
                if visited[g] {
                    return false;
                }
                let ghost v0 = visited@;
                visited.set(g, true);
                let ghost v1 = visited@;
                proof {
                    lemma_unvisited_update(v0, g as int);
                    assert(v1 == v0.update(g as int, true));
                    assert(self.contains_protocol(name@, proto@, v0) == self.contains_members(
                        views(self.groups@[g as int].proxies@), 0, proto@, v1));
                }
                let members = &self.groups[g].proxies;
                let mut i: usize = 0;
                while i < members.len()
                    invariant
                        g < self.groups@.len(),
                        self.groups@[g as int].proxies == *members,
                        i <= members@.len(),
                        visited@.len() == self.n_groups(),
                        v0 == old(visited)@,
                        covers(visited@, v1),
                        covers(visited@, v0),
                        covers(v1, v0),
                        unvisited(visited@) < unvisited(v0),
                        self.contains_protocol(name@, proto@, v0) == self.contains_members(
                            views(members@), 0, proto@, v1),
                        self.contains_members(views(members@), i as int, proto@, visited@)
                            == self.contains_members(views(members@), 0, proto@, v1),
                    decreases members.len() - i,
                {
                    let ghost vb = visited@;
                    let b = self.contains_protocol_in(members[i].as_str(), proto, visited);
                    proof {
                        lemma_merge_covers(vb, visited@);
                        lemma_unvisited_covers(visited@, vb);
                        assert(views(members@)[i as int] == members@[i as int]@);
                        assert forall|k: int| 0 <= k < v0.len() && v0[k] implies #[trigger] visited@[k] by {
                            assert(vb[k]);
                        }
                        assert forall|k: int| 0 <= k < v1.len() && v1[k] implies #[trigger] visited@[k] by {
                            assert(vb[k]);
                        }
                    }
                    proof {
                        assert(merge(vb, visited@) == visited@);
                    }
                    if b {
                        assert(self.contains_members(views(members@), i as int, proto@, vb) == (
                        true, visited@));
                        return true;
                    }
                    i += 1;
                }
                false
            },
        }
    }
}

impl OutboundManager {
    fn fresh_visited(&self) -> (v: Vec<bool>)
        ensures
            v@ == self.fresh(),
    {
        let mut v: Vec<bool> = Vec::new();
        let mut i: usize = 0;
        while i < self.groups.len()
            invariant
                i <= self.groups@.len(),
                v@ == Seq::new(i as nat, |k: int| false),
            decreases self.groups.len() - i,
        {
            v.push(false);
            i += 1;
            assert(v@ =~= Seq::new(i as nat, |k: int| false));
        }
        v
    }

    /// Whether a member reaches an AnyTLS proxy, directly or through groups.
    fn reaches_anytls_exec(&self, name: &str) -> (r: bool)
        ensures
            r == self.reaches_anytls(name@),
    {
        let mut visited = self.fresh_visited();
        self.contains_protocol_in(name, "anytls", &mut visited)
    }

    /// The members of a group in the order they are tried: those that reach
    /// an AnyTLS proxy when there are any, else all of them.
    pub fn preferred_group_members(&self, members: &[String]) -> (r: Vec<String>)
        ensures
            views(r@) == self.preferred(views(members@)),
    {
        let mut f: Vec<String> = Vec::new();
        let mut i: usize = 0;
        while i < members.len()
            invariant
                i <= members@.len(),
                views(f@) == self.anytls_members(views(members@).take(i as int)),
            decreases members.len() - i,
        {
            let keep = self.reaches_anytls_exec(members[i].as_str());
            proof {
                assert(views(members@).take(i + 1).drop_last() =~= views(members@).take(i as int));
                assert(views(members@).take(i + 1).last() == members@[i as int]@);
            }
            if keep {
                f.push(members[i].clone());
                assert(views(f@) =~= self.anytls_members(views(members@).take(i + 1)));
            }
            i += 1;
        }
        assert(views(members@).take(members.len() as int) =~= views(members@));
        if f.len() == 0 {
            copy_strings(members)
        } else {
            f
        }
    }

    fn resolve_in(&self, name: &str, excluded: &[String], now: u64, visited: &mut Vec<bool>) -> (r:
        Option<String>)
        requires
            old(visited)@.len() == self.n_groups(),
        ensures
            covers(final(visited)@, old(visited)@),
            (opt_view(r), final(visited)@) == self.resolve_name(
                name@,
                views(excluded@),
                now,
                old(visited)@,
            ),
        decreases unvisited(old(visited)@),
    {
        if str_eq(name, "DIRECT") {
            return Some(String::from_str("DIRECT"));
        }
        if str_eq(name, "REJECT") {
            return Some(String::from_str("REJECT"));
        }
        if let Some(_p) = self.proxy_position(name) {
            if contains_name(excluded, name) || !self.is_proxy_available(name, now) {
                return None;
            }
            return Some(name.to_owned());
        }
        match self.group_position(name) {
            None => None,
            Some(g) => {
                if visited[g] {
                    return None;
                }
                let ghost v0 = visited@;
                visited.set(g, true);
                let ghost v1 = visited@;
                proof {
                    lemma_unvisited_update(v0, g as int);
                    assert(v1 == v0.update(g as int, true));
                }
                let group = &self.groups[g];
                let ghost sel_result: (Option<Seq<char>>, Seq<bool>) = match &group.selected {
                    Some(s) => self.resolve_name(s@, views(excluded@), now, v1),
                    None => (None, v1),
                };
                if let Some(sel) = &group.selected {
                    let r = self.resolve_in(sel.as_str(), excluded, now, visited);
                    proof {
                        lemma_merge_covers(v1, visited@);
                        assert forall|k: int| 0 <= k < v0.len() && v0[k] implies #[trigger] visited@[k] by {
                            assert(v1[k]);
                        }
                    }
                    if r.is_some() {
                        return r;
                    }
                }
                proof {
                    lemma_merge_covers(v1, visited@);
                    lemma_unvisited_covers(visited@, v1);
                    assert(visited@ == sel_result.1);
                    assert(merge(v1, visited@) == visited@);
                }
                let prefs = self.preferred_group_members(group.proxies.as_slice());
                let ghost v3 = visited@;
                proof {
                    assert(self.resolve_name(name@, views(excluded@), now, v0) == self.resolve_members(
                        views(prefs@), 0, views(excluded@), now, v3));
                }
                let mut i: usize = 0;
                while i < prefs.len()
                    invariant
                        i <= prefs@.len(),
                        visited@.len() == self.n_groups(),
                        v0 == old(visited)@,
                        covers(visited@, v0),
                        covers(visited@, v3),
                        unvisited(visited@) < unvisited(v0),
                        self.resolve_name(name@, views(excluded@), now, v0) == self.resolve_members(
                            views(prefs@), 0, views(excluded@), now, v3),
                        self.resolve_members(views(prefs@), i as int, views(excluded@), now, visited@)
                            == self.resolve_members(views(prefs@), 0, views(excluded@), now, v3),
                    decreases prefs.len() - i,
                {
                    let ghost vb = visited@;
                    let r = self.resolve_in(prefs[i].as_str(), excluded, now, visited);
                    proof {
                        lemma_merge_covers(vb, visited@);
                        lemma_unvisited_covers(visited@, vb);
                        assert(views(prefs@)[i as int] == prefs@[i as int]@);
                        assert forall|k: int| 0 <= k < v0.len() && v0[k] implies #[trigger] visited@[k] by {
                            assert(vb[k]);
                        }
                        assert forall|k: int| 0 <= k < v3.len() && v3[k] implies #[trigger] visited@[k] by {
                            assert(vb[k]);
                        }
                        assert(merge(vb, visited@) == visited@);
                    }
                    if r.is_some() {
                        assert(self.resolve_members(views(prefs@), i as int, views(excluded@), now, vb) == (
                        opt_view(r), visited@));
                        return r;
                    }
                    i += 1;
                }
                None
            },
        }
    }

    /// The proxy that a policy name resolves to at time `now`, skipping the
    /// names in `excluded`.
    pub fn resolve_at(&self, name: &str, excluded: &[String], now: u64) -> (r: Option<String>)
        ensures
            opt_view(r) == self.spec_resolve(name@, views(excluded@), now),
            r matches Some(x) ==> self.acceptable(x@, views(excluded@), now),
    {
        let mut visited = self.fresh_visited();
        proof {
            self.lemma_resolve_name_sound(name@, views(excluded@), now, self.fresh());
        }
        self.resolve_in(name, excluded, now, &mut visited)
    }

    /// The proxy that a policy name resolves to now, skipping the names in
    /// `excluded`.
    pub fn resolve(&self, name: &str, excluded: &[String]) -> (r: Option<String>)
        ensures
            exists|now: u64| opt_view(r) == self.spec_resolve(name@, views(excluded@), now),
    {
        let now = self.clock.now_millis();
        self.resolve_at(name, excluded, now)
    }

    /// The proxy that a policy name resolves to now.
    pub fn get(&self, name: &str) -> (r: Option<String>)
        ensures
            exists|now: u64| opt_view(r) == self.spec_resolve(name@, Seq::empty(), now),
    {
        let none: Vec<String> = Vec::new();
        proof {
            assert(views(none@) =~= Seq::empty());
        }
        self.resolve(name, none.as_slice())
    }
}

// ---------------------------------------------------------------------------
// Building the tables, selections and health
// ---------------------------------------------------------------------------

pub type EntryView = (Seq<char>, Seq<char>);

pub type GroupView = (Seq<char>, Seq<char>, Seq<Seq<char>>, Option<Seq<char>>);

pub open spec fn entry_view(e: ProxyEntry) -> EntryView {
    (e.name@, e.protocol@)
}

pub open spec fn group_view(g: ProxyGroup) -> GroupView {
    (g.name@, g.group_type@, views(g.proxies@), opt_view(g.selected))
}

pub open spec fn entry_views(es: Seq<ProxyEntry>) -> Seq<EntryView> {
    es.map_values(|e: ProxyEntry| entry_view(e))
}

pub open spec fn group_views(gs: Seq<ProxyGroup>) -> Seq<GroupView> {
    gs.map_values(|g: ProxyGroup| group_view(g))
}

/// Replaces the entry with the same name, or appends it.
pub open spec fn upsert<A>(es: Seq<A>, names: Seq<Seq<char>>, name: Seq<char>, e: A) -> Seq<A> {
    let i = index_of_name(names, name);
    if i >= 0 {
        es.update(i, e)
    } else {
        es.push(e)
    }
}

/// The proxy table built from configured proxies: the carried ones, by name,
/// the later entry replacing an earlier one of the same name.
pub open spec fn carried_entries(cfg: Seq<ProxyConfig>) -> Seq<EntryView>
    decreases cfg.len(),
{
    if cfg.len() == 0 {
        Seq::empty()
    } else {
        let r = carried_entries(cfg.drop_last());
        let p = cfg.last();
        if is_carried(proxy_kind_of(unicode_lower(p.proxy_type@))) {
            upsert(r, r.map_values(|e: EntryView| e.0), p.name@, (p.name@, lower(p.proxy_type@)))
        } else {
            r
        }
    }
}

/// The group table built from configured groups, the later entry replacing
/// an earlier one of the same name.
pub open spec fn configured_groups(cfg: Seq<ProxyGroupConfig>) -> Seq<GroupView>
    decreases cfg.len(),
{
    if cfg.len() == 0 {
        Seq::empty()
    } else {
        let r = configured_groups(cfg.drop_last());
        let g = cfg.last();
        upsert(
            r,
            r.map_values(|e: GroupView| e.0),
            g.name@,
            (g.name@, g.group_type@, views(g.proxies@), opt_view(g.selected)),
        )
    }
}

/// The lowest latency among the delay tests that succeeded, the earliest
/// such result winning a tie; `results` come in the order the tests finished.
pub open spec fn fastest(results: Seq<(Seq<char>, Option<u64>)>) -> Option<(Seq<char>, u64)>
    decreases results.len(),
{
    if results.len() == 0 {
        None
    } else {
        let best = fastest(results.drop_last());
        match results.last().1 {
            Some(lat) => match best {
                Some((n, b)) => if lat >= b {
                    Some((n, b))
                } else {
                    Some((results.last().0, lat))
                },
                None => Some((results.last().0, lat)),
            },
            None => best,
        }
    }
}

/// The first delay test that succeeded, in the order the tests finished.
pub open spec fn first_success(results: Seq<(Seq<char>, Option<u64>)>) -> Option<Seq<char>>
    decreases results.len(),
{
    if results.len() == 0 {
        None
    } else if results[0].1 is Some {
        Some(results[0].0)
    } else {
        first_success(results.drop_first())
    }
}

impl OutboundManager {
    /// Builds the proxy and group tables of a configuration. Group selections
    /// are resolved afterwards (`select_for_group`, `choose_url_test`,
    /// `choose_fallback`).
    pub fn from_config(config: &Config) -> (r: OutboundManager)
        ensures
            r.wf(),
            entry_views(r.proxy_list()) == carried_entries(config.proxies@),
            group_views(r.group_list()) == configured_groups(config.proxy_groups@),
            r.deadlines().len() == 0,
            r.failure_list().len() == 0,
    {
        let mut proxies: Vec<ProxyEntry> = Vec::new();
        let mut i: usize = 0;
        while i < config.proxies.len()
            invariant
                i <= config.proxies@.len(),
                entry_names(proxies@).no_duplicates(),
                entry_views(proxies@) == carried_entries(config.proxies@.take(i as int)),
            decreases config.proxies.len() - i,
        {
            let p = &config.proxies[i];
            let kind = proxy_kind(p.proxy_type.as_str());
            let ghost before = entry_views(proxies@);
            proof {
                assert(config.proxies@.take(i + 1).drop_last() =~= config.proxies@.take(i as int));
                assert(entry_names(proxies@) =~= before.map_values(|e: EntryView| e.0));
            }
            if is_carried_kind(&kind) {
                let lowered = lower_chars(chars_of(p.proxy_type.as_str()).as_slice());
                let e = ProxyEntry { name: p.name.clone(), protocol: string_of(lowered.as_slice()) };
                upsert_entry(&mut proxies, e);
            }
            i += 1;
        }
        assert(config.proxies@.take(config.proxies.len() as int) =~= config.proxies@);
        let mut groups: Vec<ProxyGroup> = Vec::new();
        let mut j: usize = 0;
        while j < config.proxy_groups.len()
            invariant
                j <= config.proxy_groups@.len(),
                group_names(groups@).no_duplicates(),
                group_views(groups@) == configured_groups(config.proxy_groups@.take(j as int)),
            decreases config.proxy_groups.len() - j,
        {
            let g = &config.proxy_groups[j];
            proof {
                assert(config.proxy_groups@.take(j + 1).drop_last() =~= config.proxy_groups@.take(
                    j as int,
                ));
                assert(group_names(groups@) =~= group_views(groups@).map_values(|e: GroupView| e.0));
            }
            let group = ProxyGroup {
                name: g.name.clone(),
                group_type: g.group_type.clone(),
                proxies: copy_strings(g.proxies.as_slice()),
                selected: copy_opt(&g.selected),
            };
            upsert_group(&mut groups, group);
            j += 1;
        }
        assert(config.proxy_groups@.take(config.proxy_groups.len() as int) =~= config.proxy_groups@);
        let r = OutboundManager {
            proxies,
            groups,
            unhealthy_until: Vec::new(),
            failure_reasons: Vec::new(),
            clock: Clock::new(),
        };
        proof {
            assert(deadline_names(r.unhealthy_until@) =~= Seq::empty());
            assert(failure_names(r.failure_reasons@) =~= Seq::empty());
        }
        r
    }
}

fn is_carried_kind(k: &ProxyKind) -> (r: bool)
    ensures
        r == is_carried(*k),
{
    match k {
        ProxyKind::AnyTls => true,
        ProxyKind::Socks5 => true,
        ProxyKind::Http => true,
        ProxyKind::Vless => true,
        ProxyKind::Vmess => true,
        _ => false,
    }
}

proof fn lemma_upsert_names(names: Seq<Seq<char>>, name: Seq<char>)
    requires
        names.no_duplicates(),
    ensures
        upsert(names, names, name, name).no_duplicates(),
{
    lemma_index_of_name(names, name);
    let u = upsert(names, names, name, name);
    if index_of_name(names, name) >= 0 {
        assert(u =~= names);
    } else {
        assert forall|a: int, b: int| 0 <= a < u.len() && 0 <= b < u.len() && a != b implies u[a]
            != u[b] by {
            if a == names.len() as int {
                assert(names[b] != name);
            } else if b == names.len() as int {
                assert(names[a] != name);
            }
        }
    }
}

/// Where a name stands after an upsert.
proof fn lemma_upsert_index(names: Seq<Seq<char>>, name: Seq<char>)
    requires
        names.no_duplicates(),
    ensures
        index_of_name(upsert(names, names, name, name), name) == if index_of_name(names, name) >= 0 {
            index_of_name(names, name)
        } else {
            names.len() as int
        },
{
    lemma_index_of_name(names, name);
    let u = upsert(names, names, name, name);
    let k = if index_of_name(names, name) >= 0 {
        index_of_name(names, name)
    } else {
        names.len() as int
    };
    if index_of_name(names, name) >= 0 {
        assert(u =~= names);
    }
    assert forall|i: int| 0 <= i < u.len() && (k < 0 || i < k) implies #[trigger] u[i] != name by {
        if index_of_name(names, name) >= 0 {
            if u[i] == name {
                assert(names[i] == names[k]);
            }
        } else {
            assert(!names.contains(name));
            assert(u[i] == names[i]);
        }
    }
    lemma_index_of_name_exact(u, name, k);
}

proof fn lemma_unhealthy_at_contains(ds: Seq<(String, u64)>, now: u64, k: int)
    requires
        0 <= k < ds.len(),
        ds[k].1 > now,
    ensures
        unhealthy_at(ds, now).contains(ds[k].0@),
    decreases ds.len(),
{
    if k < ds.len() - 1 {
        lemma_unhealthy_at_contains(ds.drop_last(), now, k);
        let r = unhealthy_at(ds.drop_last(), now);
        let j = choose|j: int| 0 <= j < r.len() && r[j] == ds[k].0@;
        if ds.last().1 > now {
            assert(r.push(ds.last().0@)[j] == ds[k].0@);
        }
    } else {
        let r = unhealthy_at(ds.drop_last(), now);
        assert(r.push(ds.last().0@)[r.len() as int] == ds[k].0@);
    }
}

fn upsert_entry(es: &mut Vec<ProxyEntry>, e: ProxyEntry)
    requires
        entry_names(old(es)@).no_duplicates(),
    ensures
        entry_names(final(es)@).no_duplicates(),
        entry_views(final(es)@) == upsert(
            entry_views(old(es)@),
            entry_names(old(es)@),
            e.name@,
            entry_view(e),
        ),
{
    let ghost names = entry_names(es@);
    proof {
        lemma_upsert_names(names, e.name@);
        lemma_index_of_name(names, e.name@);
    }
    let mut i: usize = 0;
    while i < es.len()
        invariant
            i <= es@.len(),
            es@ == old(es)@,
            names == entry_names(es@),
            names.no_duplicates(),
            forall|j: int| 0 <= j < i ==> #[trigger] names[j] != e.name@,
        decreases es.len() - i,
    {
        if str_eq(es[i].name.as_str(), e.name.as_str()) {
            proof {
                lemma_index_of_name_exact(names, e.name@, i as int);
            }
            let ghost ev = entry_view(e);
            es.set(i, e);
            proof {
                assert(entry_views(es@) =~= entry_views(old(es)@).update(i as int, ev));
                assert(entry_names(es@) =~= names);
                assert(entry_names(es@).no_duplicates());
            }
            return;
        }
        i += 1;
    }
    proof {
        lemma_index_of_name_exact(names, e.name@, -1);
    }
    let ghost ev = entry_view(e);
    es.push(e);
    proof {
        assert(entry_views(es@) =~= entry_views(old(es)@).push(ev));
        assert(entry_names(es@) =~= upsert(names, names, ev.0, ev.0));
    }
}

fn upsert_group(gs: &mut Vec<ProxyGroup>, g: ProxyGroup)
    requires
        group_names(old(gs)@).no_duplicates(),
    ensures
        group_names(final(gs)@).no_duplicates(),
        group_views(final(gs)@) == upsert(
            group_views(old(gs)@),
            group_names(old(gs)@),
            g.name@,
            group_view(g),
        ),
{
    let ghost names = group_names(gs@);
    proof {
        lemma_upsert_names(names, g.name@);
        lemma_index_of_name(names, g.name@);
    }
    let mut i: usize = 0;
    while i < gs.len()
        invariant
            i <= gs@.len(),
            gs@ == old(gs)@,
            names == group_names(gs@),
            names.no_duplicates(),
            forall|j: int| 0 <= j < i ==> #[trigger] names[j] != g.name@,
        decreases gs.len() - i,
    {
        if str_eq(gs[i].name.as_str(), g.name.as_str()) {
            proof {
                lemma_index_of_name_exact(names, g.name@, i as int);
            }
            let ghost gv = group_view(g);
            gs.set(i, g);
            proof {
                assert(group_views(gs@) =~= group_views(old(gs)@).update(i as int, gv));
                assert(group_names(gs@) =~= names);
                assert(group_names(gs@).no_duplicates());
            }
            return;
        }
        i += 1;
    }
    proof {
        lemma_index_of_name_exact(names, g.name@, -1);
    }
    let ghost gv = group_view(g);
    gs.push(g);
    proof {
        assert(group_views(gs@) =~= group_views(old(gs)@).push(gv));
        assert(group_names(gs@) =~= upsert(names, names, gv.0, gv.0));
    }
}

pub type FailureView = (Seq<char>, Seq<char>, u64, u64, u32);

spec fn failure_view(f: (String, ProxyFailureState)) -> FailureView {
    (f.0@, f.1.message@, f.1.first_failed_unix, f.1.last_failed_unix, f.1.failures)
}

pub open spec fn failure_info_view(f: ProxyFailureInfo) -> FailureView {
    (f.name@, f.message@, f.first_failed_unix, f.last_failed_unix, f.failures)
}

pub open spec fn deadline_view(d: (String, u64)) -> (Seq<char>, u64) {
    (d.0@, d.1)
}

pub open spec fn state_view(s: ProxyGroupState) -> (Seq<char>, Seq<char>, Option<Seq<char>>) {
    (s.name@, s.group_type@, opt_view(s.selected))
}

/// The failure record after one more failure at `now_unix` with `reason`.
pub open spec fn next_failure(old: Option<FailureView>, name: Seq<char>, reason: Seq<char>, now_unix: u64) -> FailureView {
    match old {
        Some(f) => (name, reason, f.2, now_unix, if f.4 == u32::MAX { u32::MAX } else { (f.4 + 1) as u32 }),
        None => (name, reason, now_unix, now_unix, 1),
    }
}

/// The names whose deadline lies after `now`, in table order.
pub open spec fn unhealthy_at(ds: Seq<(String, u64)>, now: u64) -> Seq<Seq<char>>
    decreases ds.len(),
{
    if ds.len() == 0 {
        Seq::empty()
    } else {
        let r = unhealthy_at(ds.drop_last(), now);
        if ds.last().1 > now {
            r.push(ds.last().0@)
        } else {
            r
        }
    }
}

impl OutboundManager {
    pub closed spec fn failure_list(&self) -> Seq<FailureView> {
        self.failure_reasons@.map_values(|f: (String, ProxyFailureState)| failure_view(f))
    }

    pub open spec fn failure_of(&self, name: Seq<char>) -> Option<FailureView> {
        let i = index_of_name(self.failure_list().map_values(|f: FailureView| f.0), name);
        if i >= 0 {
            Some(self.failure_list()[i])
        } else {
            None
        }
    }

    /// The member that a `select` group starts with at time `now`: the
    /// configured selection when it resolves, else the first preferred member
    /// that resolves.
    pub open spec fn spec_select(&self, selected: Option<Seq<char>>, members: Seq<Seq<char>>, now: u64) -> Option<Seq<char>> {
        if selected is Some && self.spec_resolve(selected->0, Seq::empty(), now) is Some {
            selected
        } else {
            self.first_resolving(self.preferred(members), now)
        }
    }

    pub open spec fn first_resolving(&self, members: Seq<Seq<char>>, now: u64) -> Option<Seq<char>>
        decreases members.len(),
    {
        if members.len() == 0 {
            None
        } else if self.spec_resolve(members[0], Seq::empty(), now) is Some {
            Some(members[0])
        } else {
            self.first_resolving(members.drop_first(), now)
        }
    }

    /// The preferred members that resolve at time `now`, in order.
    pub open spec fn resolving_members(&self, members: Seq<Seq<char>>, now: u64) -> Seq<Seq<char>>
        decreases members.len(),
    {
        if members.len() == 0 {
            Seq::empty()
        } else {
            let r = self.resolving_members(members.drop_last(), now);
            if self.spec_resolve(members.last(), Seq::empty(), now) is Some {
                r.push(members.last())
            } else {
                r
            }
        }
    }

    /// The member that a `select` group starts with at time `now`.
    pub fn select_at(&self, group: &ProxyGroupConfig, now: u64) -> (r: Option<String>)
        ensures
            opt_view(r) == self.spec_select(opt_view(group.selected), views(group.proxies@), now),
    {
        let none: Vec<String> = Vec::new();
        proof {
            assert(views(none@) =~= Seq::<Seq<char>>::empty());
        }
        if let Some(selected) = &group.selected {
            if self.resolve_at(selected.as_str(), none.as_slice(), now).is_some() {
                return Some(selected.clone());
            }
        }
        let prefs = self.preferred_group_members(group.proxies.as_slice());
        assert(views(prefs@).skip(0) =~= views(prefs@));
        assert(self.spec_select(opt_view(group.selected), views(group.proxies@), now)
            == self.first_resolving(views(prefs@), now));
        let mut i: usize = 0;
        while i < prefs.len()
            invariant
                i <= prefs@.len(),
                self.spec_select(opt_view(group.selected), views(group.proxies@), now)
                    == self.first_resolving(views(prefs@), now),
                views(none@) == Seq::<Seq<char>>::empty(),
                self.first_resolving(views(prefs@).skip(i as int), now) == self.first_resolving(
                    views(prefs@),
                    now,
                ),
            decreases prefs.len() - i,
        {
            let ghost rest = views(prefs@).skip(i as int);
            assert(rest.len() > 0);
            assert(rest[0] == prefs@[i as int]@);
            if self.resolve_at(prefs[i].as_str(), none.as_slice(), now).is_some() {
                assert(self.first_resolving(rest, now) == Some(rest[0]));
                return Some(prefs[i].clone());
            }
            assert(rest.drop_first() =~= views(prefs@).skip(i + 1));
            i += 1;
        }
        None
    }

    /// The member that a `select` group starts with now.
    pub fn resolve_select_group(&self, group: &ProxyGroupConfig) -> (r: Option<String>)
        ensures
            exists|now: u64|
                opt_view(r) == self.spec_select(opt_view(group.selected), views(group.proxies@), now),
    {
        let now = self.clock.now_millis();
        self.select_at(group, now)
    }

    /// The preferred members of a `url-test` or `fallback` group that resolve
    /// at time `now`: the candidates whose delay is tested. The first of them
    /// is used when no test succeeds.
    pub fn test_candidates_at(&self, group: &ProxyGroupConfig, now: u64) -> (r: Vec<String>)
        ensures
            views(r@) == self.resolving_members(self.preferred(views(group.proxies@)), now),
    {
        let none: Vec<String> = Vec::new();
        proof {
            assert(views(none@) =~= Seq::<Seq<char>>::empty());
        }
        let prefs = self.preferred_group_members(group.proxies.as_slice());
        let mut out: Vec<String> = Vec::new();
        let mut i: usize = 0;
        while i < prefs.len()
            invariant
                i <= prefs@.len(),
                views(none@) == Seq::<Seq<char>>::empty(),
                views(out@) == self.resolving_members(views(prefs@).take(i as int), now),
            decreases prefs.len() - i,
        {
            proof {
                assert(views(prefs@).take(i + 1).drop_last() =~= views(prefs@).take(i as int));
                assert(views(prefs@).take(i + 1).last() == prefs@[i as int]@);
            }
            if self.resolve_at(prefs[i].as_str(), none.as_slice(), now).is_some() {
                out.push(prefs[i].clone());
                assert(views(out@) =~= self.resolving_members(views(prefs@).take(i + 1), now));
            }
            i += 1;
        }
        assert(views(prefs@).take(prefs.len() as int) =~= views(prefs@));
        out
    }

    /// The candidates of a `url-test` or `fallback` group now.
    pub fn test_candidates(&self, group: &ProxyGroupConfig) -> (r: Vec<String>)
        ensures
            exists|now: u64|
                views(r@) == self.resolving_members(self.preferred(views(group.proxies@)), now),
    {
        let now = self.clock.now_millis();
        self.test_candidates_at(group, now)
    }

    /// Records the selection of a group, if the group exists.
    pub fn set_selected(&mut self, group_name: &str, selected: String)
        requires
            old(self).wf(),
        ensures
            final(self).wf(),
            final(self).proxy_list() == old(self).proxy_list(),
            final(self).deadlines() == old(self).deadlines(),
            final(self).failure_list() == old(self).failure_list(),
            final(self).group_list().len() == old(self).group_list().len(),
            forall|i: int|
                0 <= i < old(self).group_list().len() ==> {
                    let g = #[trigger] final(self).group_list()[i];
                    let o = old(self).group_list()[i];
                    &&& g.name@ == o.name@
                    &&& g.group_type@ == o.group_type@
                    &&& views(g.proxies@) == views(o.proxies@)
                    &&& opt_view(g.selected) == if i == old(self).group_index(group_name@) {
                        Some(selected@)
                    } else {
                        opt_view(o.selected)
                    }
                },
    {
        match self.group_position(group_name) {
            Some(g) => {
                let ghost old_groups = self.groups@;
                let mut group = ProxyGroup {
                    name: self.groups[g].name.clone(),
                    group_type: self.groups[g].group_type.clone(),
                    proxies: copy_strings(self.groups[g].proxies.as_slice()),
                    selected: Some(selected),
                };
                self.groups.set(g, group);
                proof {
                    assert(group_names(self.groups@) =~= group_names(old_groups));
                }
            },
            None => {},
        }
    }
}

/// What the latency tests of a `url-test` or `fallback` group are handed:
/// the group's URL, else `http://www.gstatic.com/generate_204`, and a
/// timeout of 5,000 milliseconds.
pub fn latency_test_setup(group: &ProxyGroupConfig) -> (r: (String, u64))
    ensures
        r.0@ == match group.url {
            Some(u) => u@,
            None => "http://www.gstatic.com/generate_204"@,
        },
        r.1 == 5000,
{
    let url = match &group.url {
        Some(u) => u.clone(),
        None => String::from_str("http://www.gstatic.com/generate_204"),
    };
    (url, 5000)
}

/// The `url-test` choice: the candidate with the lowest latency among the
/// tests that succeeded (`results`, in the order the tests finished), else
/// the first usable candidate.
pub fn choose_url_test(results: &[(String, Option<u64>)], first_usable: Option<String>) -> (r: Option<String>)
    ensures
        opt_view(r) == match fastest(results@.map_values(|x: (String, Option<u64>)| (x.0@, x.1))) {
            Some((n, _)) => Some(n),
            None => opt_view(first_usable),
        },
{
    let ghost rs = results@.map_values(|x: (String, Option<u64>)| (x.0@, x.1));
    let mut best: Option<(usize, u64)> = None;
    let mut i: usize = 0;
    while i < results.len()
        invariant
            i <= results@.len(),
            rs == results@.map_values(|x: (String, Option<u64>)| (x.0@, x.1)),
            match fastest(rs.take(i as int)) {
                Some((n, b)) => match best {
                    Some((k, bb)) => k < i && results@[k as int].0@ == n && bb == b,
                    None => false,
                },
                None => best is None,
            },
        decreases results.len() - i,
    {
        proof {
            assert(rs.take(i + 1).drop_last() =~= rs.take(i as int));
            assert(rs.take(i + 1).last() == (results@[i as int].0@, results@[i as int].1));
        }
        match results[i].1 {
            Some(lat) => {
                match best {
                    Some((_, b)) => {
                        if lat < b {
                            best = Some((i, lat));
                        }
                    },
                    None => {
                        best = Some((i, lat));
                    },
                }
            },
            None => {},
        }
        i += 1;
    }
    assert(rs.take(results.len() as int) =~= rs);
    match best {
        Some((k, _)) => Some(results[k].0.clone()),
        None => first_usable,
    }
}

/// The `fallback` choice: the first candidate whose test succeeded (in the
/// order the tests finished), else the first usable candidate.
pub fn choose_fallback(results: &[(String, Option<u64>)], first_usable: Option<String>) -> (r: Option<String>)
    ensures
        opt_view(r) == match first_success(results@.map_values(|x: (String, Option<u64>)| (x.0@, x.1))) {
            Some(n) => Some(n),
            None => opt_view(first_usable),
        },
{
    let ghost rs = results@.map_values(|x: (String, Option<u64>)| (x.0@, x.1));
    assert(rs.skip(0) =~= rs);
    let mut i: usize = 0;
    while i < results.len()
        invariant
            i <= results@.len(),
            rs == results@.map_values(|x: (String, Option<u64>)| (x.0@, x.1)),
            first_success(rs.skip(i as int)) == first_success(rs),
        decreases results.len() - i,
    {
        assert(rs.skip(i as int)[0] == (results@[i as int].0@, results@[i as int].1));
        if results[i].1.is_some() {
            return Some(results[i].0.clone());
        }
        assert(rs.skip(i as int).drop_first() =~= rs.skip(i + 1));
        i += 1;
    }
    first_usable
}

impl OutboundManager {
    /// `after` is this manager with `name` marked unhealthy from `now` for
    /// `duration_ms` milliseconds, its failure recorded at UNIX time
    /// `now_unix` with `reason`. `DIRECT` and `REJECT` are never marked.
    pub open spec fn marked(&self, after: &OutboundManager, name: Seq<char>, duration_ms: u64, reason: Seq<char>, now: u64, now_unix: u64) -> bool {
        if name == "DIRECT"@ || name == "REJECT"@ {
            &&& after.deadlines() == self.deadlines()
            &&& after.failure_list() == self.failure_list()
        } else {
            &&& after.deadlines().map_values(|d: (String, u64)| deadline_view(d)) == upsert(
                self.deadlines().map_values(|d: (String, u64)| deadline_view(d)),
                deadline_names(self.deadlines()),
                name,
                (name, if now + duration_ms > u64::MAX { u64::MAX } else { (now + duration_ms) as u64 }),
            )
            &&& after.failure_list() == upsert(
                self.failure_list(),
                self.failure_list().map_values(|f: FailureView| f.0),
                name,
                next_failure(self.failure_of(name), name, reason, now_unix),
            )
            &&& after.failure_of(name) == Some(next_failure(self.failure_of(name), name, reason, now_unix))
            &&& (duration_ms > 0 && now < u64::MAX) ==> {
                &&& !after.is_available(name, now)
                &&& unhealthy_at(after.deadlines(), now).contains(name)
            }
        }
    }
}

impl OutboundManager {
    /// Marks a proxy unhealthy from `now` for `duration_ms` milliseconds and
    /// records the failure at UNIX time `now_unix`. `DIRECT` and `REJECT` are
    /// never marked.
    pub fn mark_unhealthy_at(&mut self, name: &str, duration_ms: u64, reason: String, now: u64, now_unix: u64)
        requires
            old(self).wf(),
        ensures
            final(self).wf(),
            final(self).proxy_list() == old(self).proxy_list(),
            final(self).group_list() == old(self).group_list(),
            old(self).marked(final(self), name@, duration_ms, reason@, now, now_unix),
    {
        if str_eq(name, "DIRECT") || str_eq(name, "REJECT") {
            return;
        }
        let until = now.saturating_add(duration_ms);
        let ghost dnames = deadline_names(self.unhealthy_until@);
        let ghost dviews = self.unhealthy_until@.map_values(|d: (String, u64)| deadline_view(d));
        proof {
            lemma_upsert_names(dnames, name@);
            lemma_index_of_name(dnames, name@);
        }
        let ghost at: int;
        match self.deadline_position(name) {
            Some(k) => {
                self.unhealthy_until.set(k, (name.to_owned(), until));
                proof {
                    at = k as int;
                    assert(deadline_names(self.unhealthy_until@) =~= dnames);
                    assert(self.unhealthy_until@.map_values(|d: (String, u64)| deadline_view(d)) =~= dviews.update(k as int, (name@, until)));
                }
            },
            None => {
                self.unhealthy_until.push((name.to_owned(), until));
                proof {
                    at = dnames.len() as int;
                    assert(deadline_names(self.unhealthy_until@) =~= upsert(dnames, dnames, name@, name@));
                    assert(self.unhealthy_until@.map_values(|d: (String, u64)| deadline_view(d)) =~= dviews.push((name@, until)));
                }
            },
        }
        proof {
            lemma_upsert_index(dnames, name@);
            assert(index_of_name(deadline_names(self.unhealthy_until@), name@) == at);
            assert(self.unhealthy_until@[at].1 == until);
            if duration_ms > 0 && now < u64::MAX {
                lemma_unhealthy_at_contains(self.unhealthy_until@, now, at);
            }
        }
        let ghost fnames = failure_names(self.failure_reasons@);
        let ghost fl = self.failure_list();
        let ghost next = next_failure(self.failure_of(name@), name@, reason@, now_unix);
        proof {
            lemma_upsert_names(fnames, name@);
            lemma_index_of_name(fnames, name@);
            assert(fl.map_values(|f: FailureView| f.0) =~= fnames);
        }
        match self.failure_position(name) {
            Some(k) => {
                let first = self.failure_reasons[k].1.first_failed_unix;
                let failures = self.failure_reasons[k].1.failures.saturating_add(1);
                let state = ProxyFailureState {
                    message: reason,
                    first_failed_unix: first,
                    last_failed_unix: now_unix,
                    failures,
                };
                self.failure_reasons.set(k, (name.to_owned(), state));
                proof {
                    assert(failure_names(self.failure_reasons@) =~= fnames);
                    assert(self.failure_list() =~= fl.update(k as int, next));
                    lemma_upsert_index(fnames, name@);
                    assert(self.failure_list().map_values(|f: FailureView| f.0) =~= failure_names(self.failure_reasons@));
                }
            },
            None => {
                let state = ProxyFailureState {
                    message: reason,
                    first_failed_unix: now_unix,
                    last_failed_unix: now_unix,
                    failures: 1,
                };
                self.failure_reasons.push((name.to_owned(), state));
                proof {
                    assert(failure_names(self.failure_reasons@) =~= upsert(fnames, fnames, name@, name@));
                    assert(self.failure_list() =~= fl.push(next));
                    lemma_upsert_index(fnames, name@);
                    assert(self.failure_list().map_values(|f: FailureView| f.0) =~= failure_names(self.failure_reasons@));
                }
            },
        }
    }

    fn failure_position(&self, name: &str) -> (r: Option<usize>)
        ensures
            match r {
                Some(i) => i < self.failure_reasons@.len() && index_of_name(
                    failure_names(self.failure_reasons@),
                    name@,
                ) == i,
                None => index_of_name(failure_names(self.failure_reasons@), name@) == -1,
            },
    {
        let mut i: usize = 0;
        while i < self.failure_reasons.len()
            invariant
                i <= self.failure_reasons@.len(),
                forall|j: int|
                    0 <= j < i ==> #[trigger] failure_names(self.failure_reasons@)[j] != name@,
            decreases self.failure_reasons.len() - i,
        {
            if str_eq(self.failure_reasons[i].0.as_str(), name) {
                proof {
                    lemma_index_of_name_exact(failure_names(self.failure_reasons@), name@, i as int);
                }
                return Some(i);
            }
            i += 1;
        }
        proof {
            lemma_index_of_name_exact(failure_names(self.failure_reasons@), name@, -1);
        }
        None
    }

    /// Marks a proxy unhealthy for `duration_ms` milliseconds from now, with a
    /// reason.
    pub fn mark_unhealthy_with_reason(&mut self, name: &str, duration_ms: u64, reason: String)
        requires
            old(self).wf(),
        ensures
            final(self).wf(),
            final(self).proxy_list() == old(self).proxy_list(),
            final(self).group_list() == old(self).group_list(),
            exists|now: u64, now_unix: u64| #[trigger] old(self).marked(final(self), name@, duration_ms, reason@, now, now_unix),
    {
        let now = self.clock.now_millis();
        let now_unix = now_unix();
        self.mark_unhealthy_at(name, duration_ms, reason, now, now_unix);
    }

    /// Marks a proxy unhealthy for `duration_ms` milliseconds from now after a
    /// failed connection.
    pub fn mark_unhealthy(&mut self, name: &str, duration_ms: u64)
        requires
            old(self).wf(),
        ensures
            final(self).wf(),
            final(self).proxy_list() == old(self).proxy_list(),
            final(self).group_list() == old(self).group_list(),
            exists|now: u64, now_unix: u64|
                #[trigger] old(self).marked(final(self), name@, duration_ms, "outbound connection failed"@, now, now_unix),
    {
        let reason = String::from_str("outbound connection failed");
        proof {
            reveal_strlit("outbound connection failed");
        }
        self.mark_unhealthy_with_reason(name, duration_ms, reason);
    }

    /// The proxies that are unhealthy at time `now`.
    pub fn unhealthy_proxies_at(&self, now: u64) -> (r: Vec<String>)
        ensures
            views(r@) == unhealthy_at(self.deadlines(), now),
    {
        let mut r: Vec<String> = Vec::new();
        let mut i: usize = 0;
        while i < self.unhealthy_until.len()
            invariant
                i <= self.unhealthy_until@.len(),
                views(r@) == unhealthy_at(self.unhealthy_until@.take(i as int), now),
            decreases self.unhealthy_until.len() - i,
        {
            proof {
                assert(self.unhealthy_until@.take(i + 1).drop_last() =~= self.unhealthy_until@.take(i as int));
            }
            if self.unhealthy_until[i].1 > now {
                r.push(self.unhealthy_until[i].0.clone());
                assert(views(r@) =~= unhealthy_at(self.unhealthy_until@.take(i + 1), now));
            }
            i += 1;
        }
        assert(self.unhealthy_until@.take(self.unhealthy_until.len() as int) =~= self.unhealthy_until@);
        r
    }

    /// The proxies that are unhealthy now.
    pub fn unhealthy_proxies(&self) -> (r: Vec<String>)
        ensures
            exists|now: u64| views(r@) == unhealthy_at(self.deadlines(), now),
    {
        let now = self.clock.now_millis();
        self.unhealthy_proxies_at(now)
    }

    /// What the runtime has selected in each group.
    pub fn group_states(&self) -> (r: Vec<ProxyGroupState>)
        ensures
            r@.len() == self.group_list().len(),
            forall|i: int|
                0 <= i < r@.len() ==> state_view(#[trigger] r@[i]) == (
                    self.group_list()[i].name@,
                    self.group_list()[i].group_type@,
                    opt_view(self.group_list()[i].selected),
                ),
    {
        let mut r: Vec<ProxyGroupState> = Vec::new();
        let mut i: usize = 0;
        while i < self.groups.len()
            invariant
                i <= self.groups@.len(),
                r@.len() == i,
                forall|j: int|
                    0 <= j < i ==> state_view(#[trigger] r@[j]) == (
                        self.groups@[j].name@,
                        self.groups@[j].group_type@,
                        opt_view(self.groups@[j].selected),
                    ),
            decreases self.groups.len() - i,
        {
            let g = &self.groups[i];
            r.push(
                ProxyGroupState {
                    name: g.name.clone(),
                    group_type: g.group_type.clone(),
                    selected: copy_opt(&g.selected),
                },
            );
            i += 1;
        }
        r
    }

    /// The failure record of each proxy that has failed.
    pub fn failure_states(&self) -> (r: Vec<ProxyFailureInfo>)
        ensures
            r@.map_values(|f: ProxyFailureInfo| failure_info_view(f)) == self.failure_list(),
    {
        let mut r: Vec<ProxyFailureInfo> = Vec::new();
        let mut i: usize = 0;
        while i < self.failure_reasons.len()
            invariant
                i <= self.failure_reasons@.len(),
                r@.len() == i,
                forall|j: int| 0 <= j < i ==> failure_info_view(#[trigger] r@[j]) == failure_view(self.failure_reasons@[j]),
            decreases self.failure_reasons.len() - i,
        {
            let f = &self.failure_reasons[i];
            r.push(
                ProxyFailureInfo {
                    name: f.0.clone(),
                    message: f.1.message.clone(),
                    first_failed_unix: f.1.first_failed_unix,
                    last_failed_unix: f.1.last_failed_unix,
                    failures: f.1.failures,
                },
            );
            i += 1;
        }
        assert(r@.map_values(|f: ProxyFailureInfo| failure_info_view(f)) =~= self.failure_list());
        r
    }

    /// The names of the configured proxies, then `DIRECT` and `REJECT`.
    pub fn list(&self) -> (r: Vec<String>)
        ensures
            views(r@) == entry_names(self.proxy_list()).push("DIRECT"@).push("REJECT"@),
    {
        let mut r: Vec<String> = Vec::new();
        let mut i: usize = 0;
        while i < self.proxies.len()
            invariant
                i <= self.proxies@.len(),
                r@.len() == i,
                forall|j: int| 0 <= j < i ==> (#[trigger] r@[j])@ == self.proxies@[j].name@,
            decreases self.proxies.len() - i,
        {
            r.push(self.proxies[i].name.clone());
            i += 1;
        }
        r.push(String::from_str("DIRECT"));
        r.push(String::from_str("REJECT"));
        assert(views(r@) =~= entry_names(self.proxies@).push("DIRECT"@).push("REJECT"@));
        r
    }
}

// ---------------------------------------------------------------------------
// Laws of resolution
// ---------------------------------------------------------------------------

impl OutboundManager {
    /// What a resolution may give: `DIRECT`, `REJECT`, or a configured proxy
    /// that is available and not excluded.
    pub open spec fn acceptable(&self, r: Seq<char>, excluded: Seq<Seq<char>>, now: u64) -> bool {
        ||| r == "DIRECT"@
        ||| r == "REJECT"@
        ||| (self.proxy_index(r) >= 0 && !excluded.contains(r) && self.is_available(r, now))
    }

    pub proof fn lemma_resolve_name_sound(&self, name: Seq<char>, excluded: Seq<Seq<char>>, now: u64, v: Seq<bool>)
        ensures
            self.resolve_name(name, excluded, now, v).0 matches Some(r) ==> self.acceptable(r, excluded, now),
        decreases unvisited(v), 0nat,
    {
        if name != "DIRECT"@ && name != "REJECT"@ && self.proxy_index(name) < 0 {
            let g = self.group_index(name);
            if !(g < 0 || v.len() != self.n_groups() || g >= v.len() || v[g]) {
                let group = self.group_list()[g];
                let v1 = v.update(g, true);
                lemma_unvisited_update(v, g);
                let (r1, v2) = match group.selected {
                    Some(s) => self.resolve_name(s@, excluded, now, v1),
                    None => (None, v1),
                };
                if let Some(s) = group.selected {
                    self.lemma_resolve_name_sound(s@, excluded, now, v1);
                }
                let v3 = merge(v1, v2);
                lemma_merge_covers(v1, v2);
                if r1 is None {
                    self.lemma_resolve_members_sound(self.preferred(views(group.proxies@)), 0, excluded, now, v3);
                }
            }
        }
    }

    pub proof fn lemma_resolve_members_sound(
        &self,
        members: Seq<Seq<char>>,
        i: int,
        excluded: Seq<Seq<char>>,
        now: u64,
        v: Seq<bool>,
    )
        ensures
            self.resolve_members(members, i, excluded, now, v).0 matches Some(r) ==> self.acceptable(r, excluded, now),
        decreases unvisited(v), members.len() - i + 1,
    {
        if 0 <= i < members.len() {
            let (r, v1) = self.resolve_name(members[i], excluded, now, v);
            self.lemma_resolve_name_sound(members[i], excluded, now, v);
            let v2 = merge(v, v1);
            lemma_merge_covers(v, v1);
            if r is None {
                self.lemma_resolve_members_sound(members, i + 1, excluded, now, v2);
            }
        }
    }

    /// The first member that is a usable configured proxy (available and not
    /// excluded), in order.
    pub open spec fn first_usable(&self, members: Seq<Seq<char>>, excluded: Seq<Seq<char>>, now: u64) -> Option<Seq<char>>
        decreases members.len(),
    {
        if members.len() == 0 {
            None
        } else if !excluded.contains(members[0]) && self.is_available(members[0], now) {
            Some(members[0])
        } else {
            self.first_usable(members.drop_first(), excluded, now)
        }
    }

    proof fn lemma_members_all_proxies(&self, members: Seq<Seq<char>>, i: int, excluded: Seq<Seq<char>>, now: u64, v: Seq<bool>)
        requires
            0 <= i <= members.len(),
            forall|k: int| 0 <= k < members.len() ==> self.proxy_index(#[trigger] members[k]) >= 0
                && members[k] != "DIRECT"@ && members[k] != "REJECT"@,
        ensures
            self.resolve_members(members, i, excluded, now, v).0 == self.first_usable(members.skip(i), excluded, now),
        decreases members.len() - i,
    {
        if i < members.len() {
            let m = members[i];
            assert(self.proxy_index(m) >= 0);
            let v1 = self.resolve_name(m, excluded, now, v).1;
            assert(v1 == v);
            lemma_merge_covers(v, v1);
            assert(merge(v, v1) =~= v);
            self.lemma_members_all_proxies(members, i + 1, excluded, now, v);
            assert(members.skip(i).drop_first() =~= members.skip(i + 1));
            assert(members.skip(i)[0] == m);
        } else {
            assert(members.skip(i).len() == 0);
        }
    }
}

/// Law: a group whose selection cannot carry a connection falls back to its
/// first preferred member that can. When the selected member of a group is a
/// configured proxy that is unhealthy or excluded (or there is no
/// selection), and the group's preferred members are all configured proxies,
/// the group resolves to the first of them that is available and not
/// excluded.
pub proof fn law_group_falls_back_to_next_member(
    m: &OutboundManager,
    group_name: Seq<char>,
    excluded: Seq<Seq<char>>,
    now: u64,
)
    requires
        group_name != "DIRECT"@,
        group_name != "REJECT"@,
        m.proxy_index(group_name) < 0,
        m.group_index(group_name) >= 0,
        ({
            let g = m.group_list()[m.group_index(group_name)];
            let prefs = m.preferred(views(g.proxies@));
            &&& (g.selected matches Some(s) ==> (m.proxy_index(s@) >= 0 && s@ != "DIRECT"@ && s@
                != "REJECT"@ && (excluded.contains(s@) || !m.is_available(s@, now))))
            &&& forall|k: int| 0 <= k < prefs.len() ==> m.proxy_index(#[trigger] prefs[k]) >= 0
                && prefs[k] != "DIRECT"@ && prefs[k] != "REJECT"@
        }),
    ensures
        ({
            let g = m.group_list()[m.group_index(group_name)];
            m.spec_resolve(group_name, excluded, now) == m.first_usable(
                m.preferred(views(g.proxies@)),
                excluded,
                now,
            )
        }),
{
    let gi = m.group_index(group_name);
    lemma_index_of_name(group_names(m.group_list()), group_name);
    let g = m.group_list()[gi];
    let v = m.fresh();
    assert(!v[gi]);
    let v1 = v.update(gi, true);
    let v3 = match g.selected {
        Some(s) => merge(v1, m.resolve_name(s@, excluded, now, v1).1),
        None => merge(v1, v1),
    };
    let prefs = m.preferred(views(g.proxies@));
    m.lemma_members_all_proxies(prefs, 0, excluded, now, v3);
    assert(prefs.skip(0) =~= prefs);
}

/// A proxy marked unhealthy at `now` for `d` milliseconds stays unavailable,
/// listed as unhealthy and, when it is a configured proxy, unresolvable at
/// every time before its deadline, and is available again from then on.
pub proof fn law_marked_until_deadline(
    m: OutboundManager,
    after: OutboundManager,
    name: Seq<char>,
    d: u64,
    reason: Seq<char>,
    now: u64,
    now_unix: u64,
    t: u64,
    excluded: Seq<Seq<char>>,
)
    requires
        m.wf(),
        m.marked(&after, name, d, reason, now, now_unix),
        name != "DIRECT"@,
        name != "REJECT"@,
        now + d <= u64::MAX,
        now <= t,
    ensures
        after.is_available(name, t) <==> t >= now + d,
        t < now + d ==> unhealthy_at(after.deadlines(), t).contains(name),
        t < now + d && after.proxy_index(name) >= 0 ==> after.spec_resolve(name, excluded, t) is None,
{
    let ds = m.deadlines();
    let dn = deadline_names(ds);
    let dl = (now + d) as u64;
    let vs = ds.map_values(|x: (String, u64)| deadline_view(x));
    let avs = after.deadlines().map_values(|x: (String, u64)| deadline_view(x));
    assert(avs == upsert(vs, dn, name, (name, dl)));
    lemma_index_of_name(dn, name);
    lemma_upsert_index(dn, name);
    let an = deadline_names(after.deadlines());
    assert(an =~= upsert(dn, dn, name, name)) by {
        assert(an =~= avs.map_values(|v: (Seq<char>, u64)| v.0));
        assert(vs.map_values(|v: (Seq<char>, u64)| v.0) =~= dn);
        if index_of_name(dn, name) >= 0 {
            assert(upsert(vs, dn, name, (name, dl)).map_values(|v: (Seq<char>, u64)| v.0) =~= dn.update(
                index_of_name(dn, name),
                name,
            ));
        } else {
            assert(upsert(vs, dn, name, (name, dl)).map_values(|v: (Seq<char>, u64)| v.0) =~= dn.push(name));
        }
    }
    let k = index_of_name(an, name);
    assert(0 <= k < after.deadlines().len());
    assert(avs[k] == (name, dl));
    assert(after.deadlines()[k].1 == dl);
    assert(after.deadlines()[k].0@ == name);
    if t < now + d {
        lemma_unhealthy_at_contains(after.deadlines(), t, k);
    }
}
proof fn lemma_anytls_members_filter(m: OutboundManager, members: Seq<Seq<char>>)
    ensures
        m.anytls_members(members) == members.filter(|x: Seq<char>| m.reaches_anytls(x)),
        m.anytls_members(members).len() == 0 <==> forall|i: int| 0 <= i < members.len() ==> !m.reaches_anytls(
            #[trigger] members[i],
        ),
    decreases members.len(),
{
    reveal(Seq::filter);
    if members.len() > 0 {
        let init = members.drop_last();
        lemma_anytls_members_filter(m, init);
        let n = members.len() - 1;
        if forall|i: int| 0 <= i < members.len() ==> !m.reaches_anytls(#[trigger] members[i]) {
            assert forall|i: int| 0 <= i < init.len() implies !m.reaches_anytls(#[trigger] init[i]) by {
                assert(init[i] == members[i]);
            }
            assert(!m.reaches_anytls(members[n]));
        }
        if m.anytls_members(members).len() == 0 {
            assert(!m.reaches_anytls(members.last()));
            assert forall|i: int| 0 <= i < members.len() implies !m.reaches_anytls(#[trigger] members[i]) by {
                if i < n {
                    assert(init[i] == members[i]);
                }
            }
        }
    }
}

/// The members tried for a group: when some member reaches an AnyTLS
/// proxy, exactly the members that do, in their order (so no member that
/// does not reach AnyTLS is tried); when none does, all members, in order.
pub proof fn law_preferred_members(m: OutboundManager, members: Seq<Seq<char>>)
    ensures
        (exists|i: int| 0 <= i < members.len() && m.reaches_anytls(#[trigger] members[i])) ==> {
            &&& m.preferred(members) == members.filter(|x: Seq<char>| m.reaches_anytls(x))
            &&& m.preferred(members).len() > 0
            &&& forall|k: int| 0 <= k < m.preferred(members).len() ==> m.reaches_anytls(#[trigger] m.preferred(members)[k])
        },
        (forall|i: int| 0 <= i < members.len() ==> !m.reaches_anytls(#[trigger] members[i])) ==> m.preferred(members)
            == members,
{
    lemma_anytls_members_filter(m, members);
    let p = |x: Seq<char>| m.reaches_anytls(x);
    if exists|i: int| 0 <= i < members.len() && m.reaches_anytls(#[trigger] members[i]) {
        assert forall|k: int| 0 <= k < members.filter(p).len() implies m.reaches_anytls(#[trigger] members.filter(p)[k]) by {
            members.lemma_filter_pred(p, k);
        }
    }
}
/// Resolving a group with no selection, whose name is neither a built-in
/// policy nor a proxy, tries the members that reach an AnyTLS proxy, in
/// order, when there is any; it never falls back to a member that does not
/// reach AnyTLS then. Without such a member it tries all members in order.
pub proof fn law_group_resolves_through_anytls_members(
    m: OutboundManager,
    name: Seq<char>,
    excluded: Seq<Seq<char>>,
    now: u64,
)
    requires
        name != "DIRECT"@,
        name != "REJECT"@,
        m.proxy_index(name) < 0,
        0 <= m.group_index(name) < m.n_groups(),
        m.group_list()[m.group_index(name)].selected is None,
    ensures
        ({
            let g = m.group_index(name);
            let members = views(m.group_list()[g].proxies@);
            let v = m.fresh().update(g, true);
            &&& (exists|i: int| 0 <= i < members.len() && m.reaches_anytls(#[trigger] members[i]))
                ==> m.spec_resolve(name, excluded, now) == m.resolve_members(
                members.filter(|x: Seq<char>| m.reaches_anytls(x)),
                0,
                excluded,
                now,
                v,
            ).0
            &&& (forall|i: int| 0 <= i < members.len() ==> !m.reaches_anytls(#[trigger] members[i]))
                ==> m.spec_resolve(name, excluded, now) == m.resolve_members(members, 0, excluded, now, v).0
        }),
{
    let g = m.group_index(name);
    let members = views(m.group_list()[g].proxies@);
    let v1 = m.fresh().update(g, true);
    assert(merge(v1, v1) =~= v1);
    law_preferred_members(m, members);
}
/// The url-test choice is a result whose test succeeded, with a latency no
/// higher than that of any other successful test; there is none exactly
/// when no test succeeded.
pub proof fn law_fastest_is_minimal(results: Seq<(Seq<char>, Option<u64>)>)
    ensures
        fastest(results) is None <==> forall|i: int| 0 <= i < results.len() ==> (#[trigger] results[i]).1 is None,
        fastest(results) matches Some((n, b)) ==> {
            &&& exists|i: int| 0 <= i < results.len() && #[trigger] results[i] == (n, Some(b))
            &&& forall|j: int| 0 <= j < results.len() && (#[trigger] results[j]).1 is Some ==> b <= results[j].1->Some_0
        },
    decreases results.len(),
{
    if results.len() > 0 {
        let init = results.drop_last();
        let n = results.len() - 1;
        law_fastest_is_minimal(init);
        assert forall|i: int| 0 <= i < init.len() implies #[trigger] init[i] == results[i] by {}
        if forall|i: int| 0 <= i < results.len() ==> (#[trigger] results[i]).1 is None {
            assert forall|i: int| 0 <= i < init.len() implies (#[trigger] init[i]).1 is None by {
                assert(init[i] == results[i]);
            }
        }
        if fastest(results) is None {
            assert(results[n].1 is None);
            assert forall|i: int| 0 <= i < results.len() implies (#[trigger] results[i]).1 is None by {
                if i < n {
                    assert(init[i] == results[i]);
                }
            }
        }
        match fastest(results) {
            Some((nm, b)) => {
                match fastest(init) {
                    Some((n0, b0)) => {
                        let i0 = choose|i: int| 0 <= i < init.len() && #[trigger] init[i] == (n0, Some(b0));
                        assert(results[i0] == init[i0]);
                    },
                    None => {},
                }
                assert forall|j: int| 0 <= j < results.len() && (#[trigger] results[j]).1 is Some implies b
                    <= results[j].1->Some_0 by {
                    if j < n {
                        assert(init[j] == results[j]);
                    }
                }
            },
            None => {},
        }
    }
}
} // verus!
