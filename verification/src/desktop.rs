//! The desktop application's own logic: its settings, and the status,
//! proxy, session and traffic views that its window shows, built from the
//! running API's answers or from the profile on disk.
use vstd::prelude::*;

use crate::api::{ProxyGroupInfo, ProxyInfo};
use crate::paths::{is_absolute, join, path_is_absolute, path_join};
use crate::service::{ProxyGroupView, ProxyNodeView, RuntimeState, RuntimeStatus};
use crate::session::{Session, SessionState};
use crate::target::host_port;
use crate::text::{
    chars_of, copy_opt, decimal, decimal_string, eq_ignore_ascii_case, eq_ignore_case, opt_view, parse_decimal,
    parse_unsigned, push_str, rsplit_once, rsplit_once_chars, str_eq, string_of, views,
};

verus! {

/// The desktop application's settings.
pub struct DesktopConfig {
    pub inbound_bind: String,
    pub inbound_port: u16,
    pub api_bind: String,
    pub api_port: u16,
    pub auto_start_engine: bool,
    pub auto_enable_system_proxy: bool,
    pub config_path: String,
}

impl DesktopConfig {
    /// The settings of a first start: the proxy on 127.0.0.1:7890, the API
    /// on 127.0.0.1:9090, nothing automatic, the profile
    /// `data/config.yaml`.
    pub fn default_config() -> (r: DesktopConfig)
        ensures
            r.inbound_bind@ == "127.0.0.1"@,
            r.inbound_port == 7890,
            r.api_bind@ == "127.0.0.1"@,
            r.api_port == 9090,
            !r.auto_start_engine,
            !r.auto_enable_system_proxy,
            r.config_path@ == "data/config.yaml"@,
    {
        DesktopConfig {
            inbound_bind: string_of(chars_of("127.0.0.1").as_slice()),
            inbound_port: 7890,
            api_bind: string_of(chars_of("127.0.0.1").as_slice()),
            api_port: 9090,
            auto_start_engine: false,
            auto_enable_system_proxy: false,
            config_path: string_of(chars_of("data/config.yaml").as_slice()),
        }
    }
}

/// The data directory of the desktop application under its base directory.
pub fn app_data_dir(base_dir: &str) -> (r: String)
    ensures
        r@ == path_join(base_dir@, "data"@),
{
    join(base_dir, "data")
}

/// Where the desktop settings are kept: `data/desktop-config.json`.
pub fn desktop_config_path(base_dir: &str) -> (r: String)
    ensures
        r@ == path_join(path_join(base_dir@, "data"@), "desktop-config.json"@),
{
    let d = app_data_dir(base_dir);
    join(d.as_str(), "desktop-config.json")
}

/// Where the desktop log is written: `data/desktop.log`.
pub fn desktop_log_path(base_dir: &str) -> (r: String)
    ensures
        r@ == path_join(path_join(base_dir@, "data"@), "desktop.log"@),
{
    let d = app_data_dir(base_dir);
    join(d.as_str(), "desktop.log")
}

/// A path the user gave: as it is when absolute, else under the base
/// directory.
pub open spec fn spec_user_path(base_dir: Seq<char>, value: Seq<char>) -> Seq<char> {
    if path_is_absolute(value) {
        value
    } else {
        path_join(base_dir, value)
    }
}

pub fn resolve_user_path(base_dir: &str, value: &str) -> (r: String)
    ensures
        r@ == spec_user_path(base_dir@, value@),
{
    if is_absolute(value) {
        string_of(chars_of(value).as_slice())
    } else {
        join(base_dir, value)
    }
}

impl DesktopConfig {
    /// The profile the settings name, resolved against the base directory.
    pub fn resolved_config_path(&self, base_dir: &str) -> (r: String)
        ensures
            r@ == spec_user_path(base_dir@, self.config_path@),
    {
        resolve_user_path(base_dir, self.config_path.as_str())
    }
}

/// The first of a directory's ancestors (nearest first, each with whether
/// it holds a `Cargo.toml`) that holds one.
pub open spec fn first_marked(candidates: Seq<(Seq<char>, bool)>) -> Option<Seq<char>>
    decreases candidates.len(),
{
    if candidates.len() == 0 {
        None
    } else if candidates[0].1 {
        Some(candidates[0].0)
    } else {
        first_marked(candidates.drop_first())
    }
}

pub fn find_workspace_root(ancestors: &[(String, bool)]) -> (r: Option<String>)
    ensures
        opt_view(r) == first_marked(ancestors@.map_values(|a: (String, bool)| (a.0@, a.1))),
{
    let ghost cs = ancestors@.map_values(|a: (String, bool)| (a.0@, a.1));
    let mut i: usize = 0;
    assert(cs.skip(0) =~= cs);
    while i < ancestors.len()
        invariant
            i <= ancestors@.len(),
            cs == ancestors@.map_values(|a: (String, bool)| (a.0@, a.1)),
            first_marked(cs.skip(i as int)) == first_marked(cs),
        decreases ancestors.len() - i,
    {
        assert(cs.skip(i as int)[0] == (ancestors@[i as int].0@, ancestors@[i as int].1));
        if ancestors[i].1 {
            return Some(ancestors[i].0.clone());
        }
        assert(cs.skip(i as int).drop_first() =~= cs.skip(i + 1));
        i += 1;
    }
    None
}

/// The desktop application's base directory: the workspace holding the
/// current directory, else the one holding the executable's directory,
/// else that directory when it has a `data` directory, else the current
/// directory.
pub fn app_base_dir(
    cwd: &str,
    cwd_root: Option<String>,
    exe_dir: Option<String>,
    exe_root: Option<String>,
    exe_dir_has_data: bool,
) -> (r: String)
    ensures
        r@ == match cwd_root {
            Some(root) => root@,
            None => match exe_dir {
                Some(d) => match exe_root {
                    Some(root) => root@,
                    None => if exe_dir_has_data {
                        d@
                    } else {
                        cwd@
                    },
                },
                None => cwd@,
            },
        },
{
    if let Some(root) = cwd_root {
        return root;
    }
    if let Some(d) = exe_dir {
        if let Some(root) = exe_root {
            return root;
        }
        if exe_dir_has_data {
            return d;
        }
    }
    string_of(chars_of(cwd).as_slice())
}

/// The base URL of the running API.
pub fn api_base_url(config: &DesktopConfig) -> (r: String)
    ensures
        r@ == "http://"@ + host_port(config.api_bind@, config.api_port),
{
    let mut s = String::new();
    push_str(&mut s, "http://");
    push_str(&mut s, config.api_bind.as_str());
    push_str(&mut s, ":");
    let p = decimal_string(config.api_port as u64);
    push_str(&mut s, p.as_str());
    proof {
        reveal_strlit(":");
        assert(s@ =~= "http://"@ + host_port(config.api_bind@, config.api_port));
    }
    s
}

/// `host:port` split at the last `:` when what follows is a port; else the
/// whole text and port 0.
pub open spec fn spec_split_host_port(input: Seq<char>) -> (Seq<char>, u16) {
    match rsplit_once(input, ':') {
        Some((h, p)) => match parse_unsigned(p, 65535) {
            Some(v) => (h, v as u16),
            None => (input, 0),
        },
        None => (input, 0),
    }
}

/// Splits `host:port`.
pub fn split_host_port(input: &str) -> (r: (String, u16))
    ensures
        (r.0@, r.1) == spec_split_host_port(input@),
{
    let c = chars_of(input);
    match rsplit_once_chars(c.as_slice(), ':') {
        Some((h, p)) => match parse_decimal(p.as_slice(), 65535) {
            Some(v) => (string_of(h.as_slice()), v as u16),
            None => (string_of(c.as_slice()), 0),
        },
        None => (string_of(c.as_slice()), 0),
    }
}

/// The window's status line.
pub struct FrontendAppStatus {
    pub engine_running: bool,
    pub system_proxy_enabled: bool,
    pub inbound_bind: String,
    pub inbound_port: u16,
    pub active_node: Option<String>,
    pub error: Option<String>,
}

/// The proxy in use: the first group that has one selected, at runtime or
/// else in the profile.
pub open spec fn spec_active_node(groups: Seq<ProxyGroupInfo>) -> Option<Seq<char>>
    decreases groups.len(),
{
    if groups.len() == 0 {
        None
    } else {
        match opt_view(groups[0].runtime_selected) {
            Some(s) => Some(s),
            None => match opt_view(groups[0].selected) {
                Some(s) => Some(s),
                None => spec_active_node(groups.drop_first()),
            },
        }
    }
}

/// The proxy in use, from the API's groups.
pub fn active_node(groups: &Vec<ProxyGroupInfo>) -> (r: Option<String>)
    ensures
        opt_view(r) == spec_active_node(groups@),
{
    let mut i: usize = 0;
    assert(groups@.skip(0) =~= groups@);
    while i < groups.len()
        invariant
            i <= groups@.len(),
            spec_active_node(groups@) == spec_active_node(groups@.skip(i as int)),
        decreases groups.len() - i,
    {
        assert(groups@.skip(i as int).drop_first() =~= groups@.skip(i + 1));
        match &groups[i].runtime_selected {
            Some(s) => {
                return Some(s.clone());
            },
            None => {},
        }
        match &groups[i].selected {
            Some(s) => {
                return Some(s.clone());
            },
            None => {},
        }
        i += 1;
    }
    None
}

/// The status line: whether the engine runs, where it listens (the
/// settings while it does not), the proxy in use while it runs, and the
/// message of a failure.
pub fn frontend_status(config: &DesktopConfig, runtime: &RuntimeState, system_proxy_enabled: bool, active: Option<String>) -> (r: FrontendAppStatus)
    ensures
        r.engine_running == (runtime.status is Running),
        r.system_proxy_enabled == system_proxy_enabled,
        match runtime.bind_addr {
            Some(e) => r.inbound_bind@ == e.ip@ && r.inbound_port == e.port,
            None => r.inbound_bind@ == config.inbound_bind@ && r.inbound_port == config.inbound_port,
        },
        opt_view(r.active_node) == opt_view(active),
        match runtime.status {
            RuntimeStatus::Failed(m) => opt_view(r.error) == Some(m@),
            _ => r.error is None,
        },
{
    let running = match runtime.status {
        RuntimeStatus::Running => true,
        _ => false,
    };
    let error = match &runtime.status {
        RuntimeStatus::Failed(m) => Some(m.clone()),
        _ => None,
    };
    let (bind, port) = match &runtime.bind_addr {
        Some(e) => (e.ip.clone(), e.port),
        None => (config.inbound_bind.clone(), config.inbound_port),
    };
    FrontendAppStatus {
        engine_running: running,
        system_proxy_enabled,
        inbound_bind: bind,
        inbound_port: port,
        active_node: active,
        error,
    }
}

/// A proxy in the window's list.
pub struct ProxyNodeDto {
    pub id: String,
    pub name: String,
    pub protocol: String,
    pub server: String,
    pub port: u16,
    pub latency: Option<u64>,
    pub status: String,
}

/// A group in the window's list.
pub struct ProxyGroupDto {
    pub id: String,
    pub name: String,
    pub group_type: String,
    pub current_node_id: Option<String>,
    pub nodes: Vec<ProxyNodeDto>,
}

/// The window's name of a group type: `selector` for `select` in any case.
pub open spec fn shown_type(t: Seq<char>) -> Seq<char> {
    if eq_ignore_case(t, "select"@) {
        "selector"@
    } else {
        t
    }
}

fn group_type_shown(t: &str) -> (r: String)
    ensures
        r@ == shown_type(t@),
{
    if eq_ignore_ascii_case(t, "select") {
        string_of(chars_of("selector").as_slice())
    } else {
        string_of(chars_of(t).as_slice())
    }
}

/// The first of `names` equal to `name`, as a position.
pub open spec fn first_named<T>(items: Seq<T>, names: spec_fn(T) -> Seq<char>, name: Seq<char>) -> int
    decreases items.len(),
{
    if items.len() == 0 {
        -1
    } else if names(items[0]) == name {
        0
    } else {
        let k = first_named(items.drop_first(), names, name);
        if k < 0 {
            -1
        } else {
            k + 1
        }
    }
}

pub open spec fn info_name(p: ProxyInfo) -> Seq<char> {
    p.name@
}

pub open spec fn view_name(p: ProxyNodeView) -> Seq<char> {
    p.name@
}

proof fn lemma_first_named<T>(items: Seq<T>, names: spec_fn(T) -> Seq<char>, name: Seq<char>, k: int)
    requires
        -1 <= k < items.len(),
        k >= 0 ==> names(items[k]) == name,
        forall|i: int| 0 <= i < items.len() && (k < 0 || i < k) ==> names(#[trigger] items[i]) != name,
    ensures
        first_named(items, names, name) == k,
    decreases items.len(),
{
    if items.len() > 0 && k != 0 {
        assert forall|i: int| 0 <= i < items.drop_first().len() && (k - 1 < 0 || i < k - 1) implies names(
            #[trigger] items.drop_first()[i],
        ) != name by {
            assert(items.drop_first()[i] == items[i + 1]);
        }
        lemma_first_named(items.drop_first(), names, name, if k < 0 { -1 } else { k - 1 });
    }
}

/// The node of a member in a group shown from the API: the first proxy of
/// that name, `error` when unhealthy, `active` when the group's current
/// one, `inactive` otherwise.
pub open spec fn api_node_ok(d: ProxyNodeDto, p: ProxyInfo, unhealthy: Seq<Seq<char>>, current: Option<Seq<char>>) -> bool {
    &&& d.id@ == p.name@
    &&& d.name@ == p.name@
    &&& d.protocol@ == p.proxy_type@
    &&& d.server@ == p.server@
    &&& d.port == p.port
    &&& d.latency is None
    &&& d.status@ == if unhealthy.contains(p.name@) {
        "error"@
    } else if current == Some(p.name@) {
        "active"@
    } else {
        "inactive"@
    }
}

/// The current proxy of a group shown from the API.
pub open spec fn api_current(g: ProxyGroupInfo) -> Option<Seq<char>> {
    match opt_view(g.runtime_selected) {
        Some(s) => Some(s),
        None => opt_view(g.selected),
    }
}

/// The members of a group that are proxies, in order, as positions in
/// `nodes` of the first proxy with each name.
pub open spec fn member_nodes<T>(members: Seq<Seq<char>>, nodes: Seq<T>, names: spec_fn(T) -> Seq<char>) -> Seq<int>
    decreases members.len(),
{
    if members.len() == 0 {
        Seq::empty()
    } else {
        let prev = member_nodes(members.drop_last(), nodes, names);
        let k = first_named(nodes, names, members.last());
        if k >= 0 {
            prev.push(k)
        } else {
            prev
        }
    }
}

/// The position of the first node with a name.
fn find_info(nodes: &Vec<ProxyInfo>, name: &str) -> (r: Option<usize>)
    ensures
        match r {
            Some(k) => k < nodes@.len() && first_named(nodes@, |p: ProxyInfo| info_name(p), name@) == k,
            None => first_named(nodes@, |p: ProxyInfo| info_name(p), name@) == -1,
        },
{
    let mut i: usize = 0;
    while i < nodes.len()
        invariant
            i <= nodes@.len(),
            forall|j: int| 0 <= j < i ==> (|p: ProxyInfo| info_name(p))(#[trigger] nodes@[j]) != name@,
        decreases nodes.len() - i,
    {
        if str_eq(nodes[i].name.as_str(), name) {
            proof {
                lemma_first_named(nodes@, |p: ProxyInfo| info_name(p), name@, i as int);
            }
            return Some(i);
        }
        i += 1;
    }
    proof {
        lemma_first_named(nodes@, |p: ProxyInfo| info_name(p), name@, -1);
    }
    None
}

/// The groups of the window from the API's answer: each group with its
/// type as shown, its current proxy, and the nodes of its members that are
/// proxies.
pub fn groups_from_api(groups: &Vec<ProxyGroupInfo>, nodes: &Vec<ProxyInfo>, unhealthy: &Vec<String>) -> (r: Vec<ProxyGroupDto>)
    ensures
        r@.len() == groups@.len(),
        forall|i: int| 0 <= i < r@.len() ==> {
            let g = #[trigger] groups@[i];
            let d = r@[i];
            let ks = member_nodes(views(g.proxies@), nodes@, |p: ProxyInfo| info_name(p));
            &&& d.id@ == g.name@
            &&& d.name@ == g.name@
            &&& d.group_type@ == shown_type(g.group_type@)
            &&& opt_view(d.current_node_id) == api_current(g)
            &&& d.nodes@.len() == ks.len()
            &&& forall|j: int| 0 <= j < ks.len() ==> api_node_ok(#[trigger] d.nodes@[j], nodes@[ks[j]], views(unhealthy@), api_current(g))
        },
{
    let mut r: Vec<ProxyGroupDto> = Vec::new();
    let mut i: usize = 0;
    while i < groups.len()
        invariant
            i <= groups@.len(),
            r@.len() == i,
            forall|t: int| 0 <= t < i ==> {
                let g = #[trigger] groups@[t];
                let d = r@[t];
                let ks = member_nodes(views(g.proxies@), nodes@, |p: ProxyInfo| info_name(p));
                &&& d.id@ == g.name@
                &&& d.name@ == g.name@
                &&& d.group_type@ == shown_type(g.group_type@)
                &&& opt_view(d.current_node_id) == api_current(g)
                &&& d.nodes@.len() == ks.len()
                &&& forall|j: int| 0 <= j < ks.len() ==> api_node_ok(#[trigger] d.nodes@[j], nodes@[ks[j]], views(unhealthy@), api_current(g))
            },
        decreases groups.len() - i,
    {
        let g = &groups[i];
        let current = match &g.runtime_selected {
            Some(s) => Some(s.clone()),
            None => copy_opt(&g.selected),
        };
        let ghost cur = api_current(*g);
        let ghost ms = views(g.proxies@);
        let mut list: Vec<ProxyNodeDto> = Vec::new();
        let mut k: usize = 0;
        while k < g.proxies.len()
            invariant
                k <= g.proxies@.len(),
                ms == views(g.proxies@),
                opt_view(current) == cur,
                list@.len() == member_nodes(ms.take(k as int), nodes@, |p: ProxyInfo| info_name(p)).len(),
                forall|j: int| 0 <= j < list@.len() ==> api_node_ok(#[trigger] list@[j],
                    nodes@[member_nodes(ms.take(k as int), nodes@, |p: ProxyInfo| info_name(p))[j]], views(unhealthy@), cur),
            decreases g.proxies.len() - k,
        {
            assert(ms.take(k + 1).drop_last() =~= ms.take(k as int));
            match find_info(nodes, g.proxies[k].as_str()) {
                Some(n) => {
                    let node = &nodes[n];
                    let bad = crate::text::contains_name(unhealthy.as_slice(), node.name.as_str());
                    let is_current = match &current {
                        Some(c) => str_eq(c.as_str(), node.name.as_str()),
                        None => false,
                    };
                    let status = if bad {
                        string_of(chars_of("error").as_slice())
                    } else if is_current {
                        string_of(chars_of("active").as_slice())
                    } else {
                        string_of(chars_of("inactive").as_slice())
                    };
                    proof {
                        crate::text::lemma_index_of_name(views(unhealthy@), node.name@);
                    }
                    list.push(
                        ProxyNodeDto {
                            id: node.name.clone(),
                            name: node.name.clone(),
                            protocol: node.proxy_type.clone(),
                            server: node.server.clone(),
                            port: node.port,
                            latency: None,
                            status,
                        },
                    );
                },
                None => {},
            }
            k += 1;
        }
        assert(ms.take(g.proxies@.len() as int) =~= ms);
        r.push(
            ProxyGroupDto {
                id: g.name.clone(),
                name: g.name.clone(),
                group_type: group_type_shown(g.group_type.as_str()),
                current_node_id: current,
                nodes: list,
            },
        );
        i += 1;
    }
    r
}

/// The node of a member in a group shown from the profile: `active` when
/// it is the group's selection, `inactive` otherwise.
pub open spec fn profile_node_ok(d: ProxyNodeDto, p: ProxyNodeView, selected: Option<Seq<char>>) -> bool {
    &&& d.id@ == p.name@
    &&& d.name@ == p.name@
    &&& d.protocol@ == p.proxy_type@
    &&& d.server@ == p.server@
    &&& d.port == p.port
    &&& d.latency is None
    &&& d.status@ == if selected == Some(p.name@) {
        "active"@
    } else {
        "inactive"@
    }
}

fn find_view(nodes: &Vec<ProxyNodeView>, name: &str) -> (r: Option<usize>)
    ensures
        match r {
            Some(k) => k < nodes@.len() && first_named(nodes@, |p: ProxyNodeView| view_name(p), name@) == k,
            None => first_named(nodes@, |p: ProxyNodeView| view_name(p), name@) == -1,
        },
{
    let mut i: usize = 0;
    while i < nodes.len()
        invariant
            i <= nodes@.len(),
            forall|j: int| 0 <= j < i ==> (|p: ProxyNodeView| view_name(p))(#[trigger] nodes@[j]) != name@,
        decreases nodes.len() - i,
    {
        if str_eq(nodes[i].name.as_str(), name) {
            proof {
                lemma_first_named(nodes@, |p: ProxyNodeView| view_name(p), name@, i as int);
            }
            return Some(i);
        }
        i += 1;
    }
    proof {
        lemma_first_named(nodes@, |p: ProxyNodeView| view_name(p), name@, -1);
    }
    None
}

/// The groups of the window from the profile, when the API cannot be asked.
pub fn groups_from_profile(groups: &Vec<ProxyGroupView>, nodes: &Vec<ProxyNodeView>) -> (r: Vec<ProxyGroupDto>)
    ensures
        r@.len() == groups@.len(),
        forall|i: int| 0 <= i < r@.len() ==> {
            let g = #[trigger] groups@[i];
            let d = r@[i];
            let ks = member_nodes(views(g.proxies@), nodes@, |p: ProxyNodeView| view_name(p));
            &&& d.id@ == g.name@
            &&& d.name@ == g.name@
            &&& d.group_type@ == shown_type(g.group_type@)
            &&& opt_view(d.current_node_id) == opt_view(g.selected)
            &&& d.nodes@.len() == ks.len()
            &&& forall|j: int| 0 <= j < ks.len() ==> profile_node_ok(#[trigger] d.nodes@[j], nodes@[ks[j]], opt_view(g.selected))
        },
{
    let mut r: Vec<ProxyGroupDto> = Vec::new();
    let mut i: usize = 0;
    while i < groups.len()
        invariant
            i <= groups@.len(),
            r@.len() == i,
            forall|t: int| 0 <= t < i ==> {
                let g = #[trigger] groups@[t];
                let d = r@[t];
                let ks = member_nodes(views(g.proxies@), nodes@, |p: ProxyNodeView| view_name(p));
                &&& d.id@ == g.name@
                &&& d.name@ == g.name@
                &&& d.group_type@ == shown_type(g.group_type@)
                &&& opt_view(d.current_node_id) == opt_view(g.selected)
                &&& d.nodes@.len() == ks.len()
                &&& forall|j: int| 0 <= j < ks.len() ==> profile_node_ok(#[trigger] d.nodes@[j], nodes@[ks[j]], opt_view(g.selected))
            },
        decreases groups.len() - i,
    {
        let g = &groups[i];
        let ghost ms = views(g.proxies@);
        let mut list: Vec<ProxyNodeDto> = Vec::new();
        let mut k: usize = 0;
        while k < g.proxies.len()
            invariant
                k <= g.proxies@.len(),
                ms == views(g.proxies@),
                list@.len() == member_nodes(ms.take(k as int), nodes@, |p: ProxyNodeView| view_name(p)).len(),
                forall|j: int| 0 <= j < list@.len() ==> profile_node_ok(#[trigger] list@[j],
                    nodes@[member_nodes(ms.take(k as int), nodes@, |p: ProxyNodeView| view_name(p))[j]], opt_view(g.selected)),
            decreases g.proxies.len() - k,
        {
            assert(ms.take(k + 1).drop_last() =~= ms.take(k as int));
            match find_view(nodes, g.proxies[k].as_str()) {
                Some(n) => {
                    let node = &nodes[n];
                    let is_current = match &g.selected {
                        Some(c) => str_eq(c.as_str(), node.name.as_str()),
                        None => false,
                    };
                    let status = if is_current {
                        string_of(chars_of("active").as_slice())
                    } else {
                        string_of(chars_of("inactive").as_slice())
                    };
                    list.push(
                        ProxyNodeDto {
                            id: node.name.clone(),
                            name: node.name.clone(),
                            protocol: node.proxy_type.clone(),
                            server: node.server.clone(),
                            port: node.port,
                            latency: None,
                            status,
                        },
                    );
                },
                None => {},
            }
            k += 1;
        }
        assert(ms.take(g.proxies@.len() as int) =~= ms);
        r.push(
            ProxyGroupDto {
                id: g.name.clone(),
                name: g.name.clone(),
                group_type: group_type_shown(g.group_type.as_str()),
                current_node_id: copy_opt(&g.selected),
                nodes: list,
            },
        );
        i += 1;
    }
    r
}

/// A session in the window's list.
pub struct SessionDto {
    pub id: String,
    pub source_ip: String,
    pub source_port: u16,
    pub destination_host: String,
    pub destination_port: u16,
    pub proxy_node_id: Option<String>,
    pub rule_id: Option<String>,
    pub upload_bytes: u64,
    pub download_bytes: u64,
    pub start_time: u64,
    pub status: String,
}

/// A session as the window lists it: its addresses split into host and
/// port, and in `start_time` how many seconds it has lasted at `now`.
pub fn session_dto(session: &Session, now: u64) -> (r: SessionDto)
    ensures
        r.id@ == session.id@,
        (r.source_ip@, r.source_port) == spec_split_host_port(session.source@),
        (r.destination_host@, r.destination_port) == spec_split_host_port(session.target@),
        opt_view(r.proxy_node_id) == Some(session.proxy@),
        opt_view(r.rule_id) == opt_view(session.matched_rule),
        r.upload_bytes == session.upload,
        r.download_bytes == session.download,
        r.status@ == if session.state == SessionState::Active {
            "active"@
        } else {
            "closed"@
        },
{
    let (destination_host, destination_port) = split_host_port(session.target.as_str());
    let (source_ip, source_port) = split_host_port(session.source.as_str());
    let status = match session.state {
        SessionState::Active => string_of(chars_of("active").as_slice()),
        SessionState::Closed => string_of(chars_of("closed").as_slice()),
    };
    SessionDto {
        id: session.id.clone(),
        source_ip,
        source_port,
        destination_host,
        destination_port,
        proxy_node_id: Some(session.proxy.clone()),
        rule_id: copy_opt(&session.matched_rule),
        upload_bytes: session.upload,
        download_bytes: session.download,
        start_time: session.duration(now) / 1000,
        status,
    }
}

/// Traffic as the window shows it; rates are not measured.
pub struct TrafficDto {
    pub upload_bytes_per_second: u64,
    pub download_bytes_per_second: u64,
    pub total_upload_bytes: u64,
    pub total_download_bytes: u64,
    pub active_connections: usize,
}

/// Traffic from totals; without a running engine, all zero.
pub fn traffic_dto(totals: Option<(u64, u64, usize)>) -> (r: TrafficDto)
    ensures
        r.upload_bytes_per_second == 0,
        r.download_bytes_per_second == 0,
        match totals {
            Some((up, down, n)) => r.total_upload_bytes == up && r.total_download_bytes == down && r.active_connections == n,
            None => r.total_upload_bytes == 0 && r.total_download_bytes == 0 && r.active_connections == 0,
        },
{
    let (up, down, n) = match totals {
        Some(t) => t,
        None => (0, 0, 0),
    };
    TrafficDto {
        upload_bytes_per_second: 0,
        download_bytes_per_second: 0,
        total_upload_bytes: up,
        total_download_bytes: down,
        active_connections: n,
    }
}

/// How many log lines the window asks for: 80 by default, between 10 and
/// 500.
pub fn recent_log_count(limit: Option<usize>) -> (r: usize)
    ensures
        r == match limit {
            None => 80,
            Some(l) => if l < 10 {
                10
            } else if l > 500 {
                500
            } else {
                l
            },
        },
{
    match limit {
        None => 80,
        Some(l) => if l < 10 {
            10
        } else if l > 500 {
            500
        } else {
            l
        },
    }
}

/// The last `limit` lines of the log, oldest first.
pub fn last_lines(lines: Vec<String>, limit: usize) -> (r: Vec<String>)
    ensures
        views(r@) == if lines@.len() > limit {
            views(lines@).skip(lines@.len() - limit)
        } else {
            views(lines@)
        },
{
    if lines.len() <= limit {
        return lines;
    }
    let start = lines.len() - limit;
    let mut r: Vec<String> = Vec::new();
    let mut i: usize = start;
    while i < lines.len()
        invariant
            start <= i <= lines@.len(),
            views(r@) == views(lines@).subrange(start as int, i as int),
        decreases lines.len() - i,
    {
        let ghost before = views(r@);
        r.push(lines[i].clone());
        assert(before.len() == i - start);
        assert(r@.len() == i - start + 1);
        assert forall|j: int| 0 <= j <= i - start implies #[trigger] views(r@)[j] == views(lines@).subrange(start as int, i + 1)[j] by {
            if j < i - start {
                assert(views(r@)[j] == before[j]);
            }
        }
        assert(views(r@) =~= views(lines@).subrange(start as int, i + 1));
        i += 1;
    }
    assert(views(lines@).subrange(start as int, lines@.len() as int) =~= views(lines@).skip(start as int));
    r
}

/// A line of the desktop log: `[{unix time}] {level padded to 5} {message}`.
pub fn log_line(unix: u64, level: &str, message: &str) -> (r: String)
    ensures
        r@ == "["@ + decimal(unix as nat) + "] "@ + level@ + Seq::new(
            if level@.len() < 5 { (5 - level@.len()) as nat } else { 0 },
            |i: int| ' ',
        ) + " "@ + message@,
{
    let mut s = String::new();
    push_str(&mut s, "[");
    let t = decimal_string(unix);
    push_str(&mut s, t.as_str());
    push_str(&mut s, "] ");
    push_str(&mut s, level);
    let n = chars_of(level).len();
    let mut k: usize = n;
    let ghost base = s@;
    while k < 5
        invariant
            n <= k,
            n == level@.len(),
            k <= 5 || k == n,
            s@ == base + Seq::new((k - n) as nat, |i: int| ' '),
        decreases 5 - k,
    {
        crate::text::push_char(&mut s, ' ');
        k += 1;
        assert(s@ =~= base + Seq::new((k - n) as nat, |i: int| ' '));
    }
    push_str(&mut s, " ");
    push_str(&mut s, message);
    proof {
        reveal_strlit("[");
        reveal_strlit("] ");
        reveal_strlit(" ");
        assert(s@ =~= "["@ + decimal(unix as nat) + "] "@ + level@ + Seq::new(
            if level@.len() < 5 { (5 - level@.len()) as nat } else { 0 },
            |i: int| ' ',
        ) + " "@ + message@);
    }
    s
}


/// An address written as `host:port` splits back into the same host and
/// port.
pub proof fn law_split_host_port_round_trip(host: Seq<char>, port: u16)
    ensures
        spec_split_host_port(host_port(host, port)) == (host, port),
{
    crate::text::lemma_host_port_split(host, port as nat);
    crate::text::lemma_parse_decimal_form(port as nat, 65535);
}

} // verus!
