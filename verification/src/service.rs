//! The application service: the runtime's lifecycle state, the views that
//! a user interface shows of a profile and of the running engine, and the
//! manual selection of a proxy in a group.
use vstd::prelude::*;

use crate::config::{Config, ProxyConfig, ProxyGroupConfig, SubscriptionConfig};
use crate::outbound::ProxyGroupState;
use crate::subscription::{or_zero, sat_add, sat_sub, SubscriptionMetadata};
use crate::text::{
    before_first, before_first_chars, chars_of, copy_opt, copy_strings, eq_ignore_ascii_case, eq_ignore_case,
    index_of_name, lemma_index_of_name, opt_view, position_of, push_str, str_eq, string_of, views,
};

verus! {

/// Where the runtime stands.
pub enum RuntimeStatus {
    Stopped,
    Starting,
    Running,
    Stopping,
    Failed(String),
}

/// An address and port the runtime listens on.
pub struct Endpoint {
    pub ip: String,
    pub port: u16,
}

/// The runtime's state as the service keeps it.
pub struct RuntimeState {
    pub status: RuntimeStatus,
    pub config_path: Option<String>,
    pub bind_addr: Option<Endpoint>,
    pub api_addr: Option<Endpoint>,
    pub system_proxy_enabled: bool,
}

/// How the runtime is to be started.
pub struct StartOptions {
    pub config_path: String,
    pub bind: String,
    pub port: u16,
    pub api_bind: Option<String>,
    pub api_port: Option<u16>,
    pub set_system_proxy: bool,
}

/// What importing a subscription wrote.
pub struct ImportSubscriptionResult {
    pub output_path: String,
    pub proxy_count: usize,
    pub proxy_group_count: usize,
    pub rule_count: usize,
}

/// The operating system's proxy setting.
pub struct SystemProxyStatus {
    pub supported: bool,
    pub enabled: bool,
    pub server: Option<String>,
    pub bypass: Option<String>,
}

/// The runtime as a user interface shows it.
pub struct RuntimeSnapshot {
    pub running: bool,
    pub config_path: Option<String>,
    pub mode: Option<String>,
    pub mixed_bind: Option<String>,
    pub mixed_port: Option<u16>,
    pub api_bind: Option<String>,
    pub api_port: Option<u16>,
    pub system_proxy_enabled: bool,
}

/// A configured proxy as a user interface shows it.
pub struct ProxyNodeView {
    pub name: String,
    pub proxy_type: String,
    pub server: String,
    pub port: u16,
    pub healthy: bool,
    pub udp: bool,
}

/// A proxy group as a user interface shows it.
pub struct ProxyGroupView {
    pub name: String,
    pub group_type: String,
    pub selected: Option<String>,
    pub runtime_selected: Option<String>,
    pub proxies: Vec<String>,
}

/// The traffic figures of a subscription, as a user interface shows them.
pub struct SubscriptionUsage {
    pub fetched_at_unix: u64,
    pub upload: Option<u64>,
    pub download: Option<u64>,
    pub used: Option<u64>,
    pub total: Option<u64>,
    pub remaining: Option<u64>,
    pub expire: Option<u64>,
    pub source: Option<String>,
}

/// A profile at a glance.
pub struct ProfileSummary {
    pub config_path: String,
    pub mode: String,
    pub log_level: String,
    pub proxy_count: usize,
    pub proxy_group_count: usize,
    pub rule_count: usize,
    pub udp_proxy_count: usize,
    pub manual_selections: Vec<String>,
    pub rule_preview: Vec<String>,
    pub subscription: Option<SubscriptionUsage>,
}

/// Everything the status page shows.
pub struct AppStatus {
    pub runtime: RuntimeSnapshot,
    pub system_proxy: SystemProxyStatus,
    pub unhealthy_proxies: Vec<String>,
    pub proxy_groups: Vec<ProxyGroupView>,
}

// ---------------------------------------------------------------------------
// Runtime state
// ---------------------------------------------------------------------------

pub open spec fn endpoint_view(e: Option<Endpoint>) -> Option<(Seq<char>, u16)> {
    match e {
        Some(e) => Some((e.ip@, e.port)),
        None => None,
    }
}

pub fn copy_endpoint(e: &Option<Endpoint>) -> (r: Option<Endpoint>)
    ensures
        endpoint_view(r) == endpoint_view(*e),
{
    match e {
        Some(e) => Some(Endpoint { ip: e.ip.clone(), port: e.port }),
        None => None,
    }
}

impl RuntimeState {
    /// Stopped, with nothing recorded.
    pub fn new() -> (r: RuntimeState)
        ensures
            r.status is Stopped,
            r.config_path is None,
            r.bind_addr is None,
            r.api_addr is None,
            !r.system_proxy_enabled,
    {
        RuntimeState {
            status: RuntimeStatus::Stopped,
            config_path: None,
            bind_addr: None,
            api_addr: None,
            system_proxy_enabled: false,
        }
    }

    /// Starting with a configuration, listening on `bind_addr`.
    pub fn set_starting(&mut self, config_path: String, bind_addr: Endpoint)
        ensures
            final(self).status is Starting,
            opt_view(final(self).config_path) == Some(config_path@),
            endpoint_view(final(self).bind_addr) == Some((bind_addr.ip@, bind_addr.port)),
            endpoint_view(final(self).api_addr) == endpoint_view(old(self).api_addr),
            final(self).system_proxy_enabled == old(self).system_proxy_enabled,
    {
        self.status = RuntimeStatus::Starting;
        self.config_path = Some(config_path);
        self.bind_addr = Some(bind_addr);
    }

    /// Running, with the API address and the system proxy setting.
    pub fn set_running(&mut self, api_addr: Option<Endpoint>, system_proxy_enabled: bool)
        ensures
            final(self).status is Running,
            opt_view(final(self).config_path) == opt_view(old(self).config_path),
            endpoint_view(final(self).bind_addr) == endpoint_view(old(self).bind_addr),
            endpoint_view(final(self).api_addr) == endpoint_view(api_addr),
            final(self).system_proxy_enabled == system_proxy_enabled,
    {
        self.status = RuntimeStatus::Running;
        self.api_addr = api_addr;
        self.system_proxy_enabled = system_proxy_enabled;
    }

    /// Stopping; the rest is kept.
    pub fn set_stopping(&mut self)
        ensures
            final(self).status is Stopping,
            opt_view(final(self).config_path) == opt_view(old(self).config_path),
            endpoint_view(final(self).bind_addr) == endpoint_view(old(self).bind_addr),
            endpoint_view(final(self).api_addr) == endpoint_view(old(self).api_addr),
            final(self).system_proxy_enabled == old(self).system_proxy_enabled,
    {
        self.status = RuntimeStatus::Stopping;
    }

    /// Stopped: everything is forgotten.
    pub fn set_stopped(&mut self)
        ensures
            final(self).status is Stopped,
            final(self).config_path is None,
            final(self).bind_addr is None,
            final(self).api_addr is None,
            !final(self).system_proxy_enabled,
    {
        *self = RuntimeState::new();
    }

    /// Failed with a message; the rest is kept.
    pub fn set_failed(&mut self, message: String)
        ensures
            final(self).status matches RuntimeStatus::Failed(m) && m@ == message@,
            opt_view(final(self).config_path) == opt_view(old(self).config_path),
            endpoint_view(final(self).bind_addr) == endpoint_view(old(self).bind_addr),
            endpoint_view(final(self).api_addr) == endpoint_view(old(self).api_addr),
            final(self).system_proxy_enabled == old(self).system_proxy_enabled,
    {
        self.status = RuntimeStatus::Failed(message);
    }

    /// The snapshot of this state: running only in the running state, no
    /// mode, and the addresses split into address and port.
    pub fn snapshot(&self) -> (r: RuntimeSnapshot)
        ensures
            r.running == (self.status is Running),
            opt_view(r.config_path) == opt_view(self.config_path),
            r.mode is None,
            match self.bind_addr {
                Some(e) => opt_view(r.mixed_bind) == Some(e.ip@) && r.mixed_port == Some(e.port),
                None => r.mixed_bind is None && r.mixed_port is None,
            },
            match self.api_addr {
                Some(e) => opt_view(r.api_bind) == Some(e.ip@) && r.api_port == Some(e.port),
                None => r.api_bind is None && r.api_port is None,
            },
            r.system_proxy_enabled == self.system_proxy_enabled,
    {
        let running = match self.status {
            RuntimeStatus::Running => true,
            _ => false,
        };
        let (mixed_bind, mixed_port) = match &self.bind_addr {
            Some(e) => (Some(e.ip.clone()), Some(e.port)),
            None => (None, None),
        };
        let (api_bind, api_port) = match &self.api_addr {
            Some(e) => (Some(e.ip.clone()), Some(e.port)),
            None => (None, None),
        };
        RuntimeSnapshot {
            running,
            config_path: copy_opt(&self.config_path),
            mode: None,
            mixed_bind,
            mixed_port,
            api_bind,
            api_port,
            system_proxy_enabled: self.system_proxy_enabled,
        }
    }
}

impl RuntimeSnapshot {
    /// The snapshot of a runtime that is not running.
    pub fn stopped() -> (r: RuntimeSnapshot)
        ensures
            !r.running,
            r.config_path is None && r.mode is None,
            r.mixed_bind is None && r.mixed_port is None,
            r.api_bind is None && r.api_port is None,
            !r.system_proxy_enabled,
    {
        RuntimeSnapshot {
            running: false,
            config_path: None,
            mode: None,
            mixed_bind: None,
            mixed_port: None,
            api_bind: None,
            api_port: None,
            system_proxy_enabled: false,
        }
    }
}

/// Whether a new runtime may start: not while one is running.
pub fn can_start(state: &RuntimeState) -> (r: bool)
    ensures
        r == !(state.status is Running),
{
    match state.status {
        RuntimeStatus::Running => false,
        _ => true,
    }
}

// ---------------------------------------------------------------------------
// Views
// ---------------------------------------------------------------------------

/// The system proxy status from what the operating system reported: the
/// setting, its server and its bypass list (blank ones left out), or not
/// supported when it could not be read.
pub fn system_proxy_status(reported: Option<(bool, String, String)>) -> (r: SystemProxyStatus)
    ensures
        match reported {
            Some((enabled, server, bypass)) => r.supported && r.enabled == enabled
                && opt_view(r.server) == (if server@.len() == 0 { None } else { Some(server@) })
                && opt_view(r.bypass) == (if bypass@.len() == 0 { None } else { Some(bypass@) }),
            None => !r.supported && !r.enabled && r.server is None && r.bypass is None,
        },
{
    match reported {
        Some((enabled, server, bypass)) => {
            let s = if chars_of(server.as_str()).len() == 0 {
                None
            } else {
                Some(server)
            };
            let b = if chars_of(bypass.as_str()).len() == 0 {
                None
            } else {
                Some(bypass)
            };
            SystemProxyStatus { supported: true, enabled, server: s, bypass: b }
        },
        None => SystemProxyStatus { supported: false, enabled: false, server: None, bypass: None },
    }
}

/// The subscription settings that an import records: the URL, enabled,
/// with no refresh interval.
pub fn imported_subscription(url: &str) -> (r: SubscriptionConfig)
    ensures
        r.url@ == url@,
        r.interval_hours is None,
        r.enabled,
{
    SubscriptionConfig { url: string_of(chars_of(url).as_slice()), interval_hours: None, enabled: true }
}

/// What an import wrote: the path and the counts of the configuration.
pub fn import_result(output_path: &str, config: &Config) -> (r: ImportSubscriptionResult)
    ensures
        r.output_path@ == output_path@,
        r.proxy_count == config.proxies@.len(),
        r.proxy_group_count == config.proxy_groups@.len(),
        r.rule_count == config.rules@.len(),
{
    ImportSubscriptionResult {
        output_path: string_of(chars_of(output_path).as_slice()),
        proxy_count: config.proxies.len(),
        proxy_group_count: config.proxy_groups.len(),
        rule_count: config.rules.len(),
    }
}

/// `{group} -> {selected}` for a group with a manual selection.
pub open spec fn selection_line(g: ProxyGroupConfig) -> Seq<char> {
    g.name@ + " -> "@ + g.selected->Some_0@
}

/// The manual selections of groups, in order.
pub open spec fn selections(gs: Seq<ProxyGroupConfig>) -> Seq<Seq<char>>
    decreases gs.len(),
{
    if gs.len() == 0 {
        Seq::empty()
    } else if gs.last().selected is Some {
        selections(gs.drop_last()).push(selection_line(gs.last()))
    } else {
        selections(gs.drop_last())
    }
}

/// The manual selections of a configuration's groups, as
/// `{group} -> {selected}`.
pub fn manual_selections(config: &Config) -> (r: Vec<String>)
    ensures
        views(r@) == selections(config.proxy_groups@),
{
    let mut r: Vec<String> = Vec::new();
    let mut i: usize = 0;
    while i < config.proxy_groups.len()
        invariant
            i <= config.proxy_groups@.len(),
            views(r@) == selections(config.proxy_groups@.take(i as int)),
        decreases config.proxy_groups.len() - i,
    {
        let g = &config.proxy_groups[i];
        assert(config.proxy_groups@.take(i + 1).drop_last() =~= config.proxy_groups@.take(i as int));
        match &g.selected {
            Some(sel) => {
                let mut line = g.name.clone();
                push_str(&mut line, " -> ");
                push_str(&mut line, sel.as_str());
                let ghost before = views(r@);
                r.push(line);
                assert(views(r@) =~= before.push(selection_line(*g)));
            },
            None => {},
        }
        i += 1;
    }
    assert(config.proxy_groups@.take(config.proxy_groups@.len() as int) =~= config.proxy_groups@);
    r
}

/// The number of proxies with UDP on.
pub open spec fn udp_count(ps: Seq<ProxyConfig>) -> nat
    decreases ps.len(),
{
    if ps.len() == 0 {
        0
    } else {
        udp_count(ps.drop_last()) + if ps.last().udp {
            1nat
        } else {
            0nat
        }
    }
}

proof fn lemma_udp_count_bound(ps: Seq<ProxyConfig>)
    ensures
        udp_count(ps) <= ps.len(),
    decreases ps.len(),
{
    if ps.len() > 0 {
        lemma_udp_count_bound(ps.drop_last());
    }
}

fn count_udp(ps: &Vec<ProxyConfig>) -> (r: usize)
    ensures
        r == udp_count(ps@),
{
    let mut n: usize = 0;
    let mut i: usize = 0;
    while i < ps.len()
        invariant
            i <= ps@.len(),
            n == udp_count(ps@.take(i as int)),
        decreases ps.len() - i,
    {
        assert(ps@.take(i + 1).drop_last() =~= ps@.take(i as int));
        proof {
            lemma_udp_count_bound(ps@.take(i as int));
        }
        if ps[i].udp {
            n += 1;
        }
        i += 1;
    }
    assert(ps@.take(ps@.len() as int) =~= ps@);
    n
}

/// The subscription figures shown for a profile; the source is shown
/// without its query.
pub fn subscription_usage(metadata: &SubscriptionMetadata) -> (r: SubscriptionUsage)
    ensures
        r.fetched_at_unix == metadata.fetched_at_unix,
        r.upload == metadata.upload,
        r.download == metadata.download,
        r.used == Some(sat_add(or_zero(metadata.upload), or_zero(metadata.download))),
        r.total == metadata.total,
        r.remaining == match metadata.total {
            Some(t) => Some(sat_sub(t, sat_add(or_zero(metadata.upload), or_zero(metadata.download)))),
            None => None,
        },
        r.expire == metadata.expire,
        opt_view(r.source) == match metadata.source {
            Some(s) => Some(before_first(s@, '?')),
            None => None,
        },
{
    let source = match &metadata.source {
        Some(s) => {
            let c = chars_of(s.as_str());
            Some(string_of(before_first_chars(c.as_slice(), '?').as_slice()))
        },
        None => None,
    };
    SubscriptionUsage {
        fetched_at_unix: metadata.fetched_at_unix,
        upload: metadata.upload,
        download: metadata.download,
        used: metadata.used(),
        total: metadata.total,
        remaining: metadata.remaining(),
        expire: metadata.expire,
        source,
    }
}

/// A profile at a glance: its counts, its manual selections, its first
/// twelve rules, and the figures of its subscription when they were read.
pub fn profile_summary(path: &str, config: &Config, metadata: Option<&SubscriptionMetadata>) -> (r: ProfileSummary)
    ensures
        r.config_path@ == path@,
        r.mode@ == config.mode@,
        r.log_level@ == config.log_level@,
        r.proxy_count == config.proxies@.len(),
        r.proxy_group_count == config.proxy_groups@.len(),
        r.rule_count == config.rules@.len(),
        r.udp_proxy_count == udp_count(config.proxies@),
        views(r.manual_selections@) == selections(config.proxy_groups@),
        views(r.rule_preview@) == views(config.rules@).take(vstd::math::min(12, config.rules@.len() as int)),
        r.subscription is Some <==> metadata is Some,
{
    let n = if config.rules.len() < 12 {
        config.rules.len()
    } else {
        12
    };
    let mut preview: Vec<String> = Vec::new();
    let mut i: usize = 0;
    while i < n
        invariant
            i <= n,
            n <= config.rules@.len(),
            views(preview@) == views(config.rules@).take(i as int),
        decreases n - i,
    {
        let ghost before = views(preview@);
        preview.push(config.rules[i].clone());
        assert(before.len() == i);
        assert(preview@.len() == i + 1);
        assert forall|j: int| 0 <= j <= i implies #[trigger] views(preview@)[j] == views(config.rules@).take(i + 1)[j] by {
            if j < i {
                assert(views(preview@)[j] == before[j]);
            }
        }
        assert(views(preview@) =~= views(config.rules@).take(i + 1));
        i += 1;
    }
    ProfileSummary {
        config_path: string_of(chars_of(path).as_slice()),
        mode: config.mode.clone(),
        log_level: config.log_level.clone(),
        proxy_count: config.proxies.len(),
        proxy_group_count: config.proxy_groups.len(),
        rule_count: config.rules.len(),
        udp_proxy_count: count_udp(&config.proxies),
        manual_selections: manual_selections(config),
        rule_preview: preview,
        subscription: match metadata {
            Some(m) => Some(subscription_usage(m)),
            None => None,
        },
    }
}

/// A proxy as shown in the overview: healthy, as nothing is known of it.
pub open spec fn node_matches(v: ProxyNodeView, p: ProxyConfig) -> bool {
    &&& v.name@ == p.name@
    &&& v.proxy_type@ == p.proxy_type@
    &&& v.server@ == p.server@
    &&& v.port == p.port
    &&& v.healthy
    &&& v.udp == p.udp
}

/// A group as configured, with the runtime selection given.
pub open spec fn group_matches(v: ProxyGroupView, g: ProxyGroupConfig, runtime: Option<Seq<char>>) -> bool {
    &&& v.name@ == g.name@
    &&& v.group_type@ == g.group_type@
    &&& opt_view(v.selected) == opt_view(g.selected)
    &&& opt_view(v.runtime_selected) == runtime
    &&& views(v.proxies@) == views(g.proxies@)
}

/// The proxies and groups of a profile, as the overview shows them.
pub fn proxy_overview(config: &Config) -> (r: (Vec<ProxyNodeView>, Vec<ProxyGroupView>))
    ensures
        r.0@.len() == config.proxies@.len(),
        forall|i: int| 0 <= i < r.0@.len() ==> node_matches(#[trigger] r.0@[i], config.proxies@[i]),
        r.1@.len() == config.proxy_groups@.len(),
        forall|i: int| 0 <= i < r.1@.len() ==> group_matches(#[trigger] r.1@[i], config.proxy_groups@[i], None),
{
    let mut nodes: Vec<ProxyNodeView> = Vec::new();
    let mut i: usize = 0;
    while i < config.proxies.len()
        invariant
            i <= config.proxies@.len(),
            nodes@.len() == i,
            forall|j: int| 0 <= j < i ==> node_matches(#[trigger] nodes@[j], config.proxies@[j]),
        decreases config.proxies.len() - i,
    {
        let p = &config.proxies[i];
        nodes.push(
            ProxyNodeView {
                name: p.name.clone(),
                proxy_type: p.proxy_type.clone(),
                server: p.server.clone(),
                port: p.port,
                healthy: true,
                udp: p.udp,
            },
        );
        i += 1;
    }
    let mut groups: Vec<ProxyGroupView> = Vec::new();
    let mut k: usize = 0;
    while k < config.proxy_groups.len()
        invariant
            k <= config.proxy_groups@.len(),
            groups@.len() == k,
            forall|j: int| 0 <= j < k ==> group_matches(#[trigger] groups@[j], config.proxy_groups@[j], None),
        decreases config.proxy_groups.len() - k,
    {
        let g = &config.proxy_groups[k];
        groups.push(
            ProxyGroupView {
                name: g.name.clone(),
                group_type: g.group_type.clone(),
                selected: copy_opt(&g.selected),
                runtime_selected: None,
                proxies: copy_strings(g.proxies.as_slice()),
            },
        );
        k += 1;
    }
    (nodes, groups)
}

// ---------------------------------------------------------------------------
// Manual selection
// ---------------------------------------------------------------------------

/// Why a manual selection was refused.
#[derive(Debug, PartialEq, Eq, Structural)]
pub enum SelectError {
    GroupNotFound,
    /// Only `select` groups take a manual selection.
    NotSelectGroup,
    /// The proxy is not a member of the group.
    NotAMember,
}

pub open spec fn config_group_names(c: Config) -> Seq<Seq<char>> {
    c.proxy_groups@.map_values(|g: ProxyGroupConfig| g.name@)
}

/// What selecting `proxy` in `group` gives: the error, or nothing.
pub open spec fn select_outcome(c: Config, group: Seq<char>, proxy: Seq<char>) -> Result<(), SelectError> {
    let i = index_of_name(config_group_names(c), group);
    if i < 0 {
        Err(SelectError::GroupNotFound)
    } else if !eq_ignore_case(c.proxy_groups@[i].group_type@, "select"@) {
        Err(SelectError::NotSelectGroup)
    } else if !views(c.proxy_groups@[i].proxies@).contains(proxy) {
        Err(SelectError::NotAMember)
    } else {
        Ok(())
    }
}

/// Selects `proxy_name` in the first group named `group_name`: only in a
/// `select` group, and only one of its members. Nothing else changes, and
/// nothing at all when the selection is refused.
pub fn select_proxy(config: &mut Config, group_name: &str, proxy_name: &str) -> (r: Result<(), SelectError>)
    ensures
        r == select_outcome(*old(config), group_name@, proxy_name@),
        r is Err ==> *final(config) == *old(config),
        r is Ok ==> {
            let i = index_of_name(config_group_names(*old(config)), group_name@);
            &&& final(config).proxy_groups@.len() == old(config).proxy_groups@.len()
            &&& opt_view(final(config).proxy_groups@[i].selected) == Some(proxy_name@)
            &&& final(config).proxy_groups@[i].name == old(config).proxy_groups@[i].name
            &&& final(config).proxy_groups@[i].group_type == old(config).proxy_groups@[i].group_type
            &&& final(config).proxy_groups@[i].proxies == old(config).proxy_groups@[i].proxies
            &&& forall|j: int| 0 <= j < final(config).proxy_groups@.len() && j != i ==> #[trigger] final(config).proxy_groups@[j]
                == old(config).proxy_groups@[j]
            &&& final(config).proxies == old(config).proxies
            &&& final(config).rules == old(config).rules
        },
{
    let ghost gn = config_group_names(*config);
    let mut i: usize = 0;
    while i < config.proxy_groups.len()
        invariant
            i <= config.proxy_groups@.len(),
            gn == config_group_names(*config),
            forall|j: int| 0 <= j < i ==> #[trigger] gn[j] != group_name@,
        ensures
            i <= config.proxy_groups@.len(),
            gn == config_group_names(*config),
            forall|j: int| 0 <= j < i ==> #[trigger] gn[j] != group_name@,
            i < config.proxy_groups@.len() ==> gn[i as int] == group_name@,
        decreases config.proxy_groups.len() - i,
    {
        if str_eq(config.proxy_groups[i].name.as_str(), group_name) {
            break;
        }
        i += 1;
    }
    if i == config.proxy_groups.len() {
        proof {
            crate::text::lemma_index_of_name_exact(gn, group_name@, -1);
        }
        return Err(SelectError::GroupNotFound);
    }
    proof {
        crate::text::lemma_index_of_name_exact(gn, group_name@, i as int);
    }
    if !eq_ignore_ascii_case(config.proxy_groups[i].group_type.as_str(), "select") {
        return Err(SelectError::NotSelectGroup);
    }
    if !crate::text::contains_name(config.proxy_groups[i].proxies.as_slice(), proxy_name) {
        return Err(SelectError::NotAMember);
    }
    let selected = string_of(chars_of(proxy_name).as_slice());
    let mut group = config.proxy_groups.remove(i);
    group.selected = Some(selected);
    config.proxy_groups.insert(i, group);
    Ok(())
}

// ---------------------------------------------------------------------------
// Running engine
// ---------------------------------------------------------------------------

/// The runtime selection of the first group state named `name`.
pub open spec fn runtime_selection(states: Seq<ProxyGroupState>, name: Seq<char>) -> Option<Seq<char>>
    decreases states.len(),
{
    if states.len() == 0 {
        None
    } else if states[0].name@ == name {
        opt_view(states[0].selected)
    } else {
        runtime_selection(states.drop_first(), name)
    }
}

/// The runtime selection of a group, from the engine's group states.
pub fn find_runtime_selection(states: &Vec<ProxyGroupState>, name: &str) -> (r: Option<String>)
    ensures
        opt_view(r) == runtime_selection(states@, name@),
{
    let mut i: usize = 0;
    assert(states@.skip(0) =~= states@);
    while i < states.len()
        invariant
            i <= states@.len(),
            runtime_selection(states@, name@) == runtime_selection(states@.skip(i as int), name@),
        decreases states.len() - i,
    {
        assert(states@.skip(i as int).drop_first() =~= states@.skip(i + 1));
        if str_eq(states[i].name.as_str(), name) {
            return copy_opt(&states[i].selected);
        }
        i += 1;
    }
    None
}

/// The groups of the running configuration, with what the engine has
/// selected in each.
pub fn engine_group_views(config: &Config, states: &Vec<ProxyGroupState>) -> (r: Vec<ProxyGroupView>)
    ensures
        r@.len() == config.proxy_groups@.len(),
        forall|i: int| 0 <= i < r@.len() ==> group_matches(#[trigger] r@[i], config.proxy_groups@[i],
            runtime_selection(states@, config.proxy_groups@[i].name@)),
{
    let mut groups: Vec<ProxyGroupView> = Vec::new();
    let mut k: usize = 0;
    while k < config.proxy_groups.len()
        invariant
            k <= config.proxy_groups@.len(),
            groups@.len() == k,
            forall|j: int| 0 <= j < k ==> group_matches(#[trigger] groups@[j], config.proxy_groups@[j],
                runtime_selection(states@, config.proxy_groups@[j].name@)),
        decreases config.proxy_groups.len() - k,
    {
        let g = &config.proxy_groups[k];
        groups.push(
            ProxyGroupView {
                name: g.name.clone(),
                group_type: g.group_type.clone(),
                selected: copy_opt(&g.selected),
                runtime_selected: find_runtime_selection(states, g.name.as_str()),
                proxies: copy_strings(g.proxies.as_slice()),
            },
        );
        k += 1;
    }
    groups
}

/// The interval in seconds at which a subscription is refreshed while the
/// runtime runs: none unless it is enabled with a positive number of hours.
pub fn refresh_interval_secs(subscription: &Option<SubscriptionConfig>) -> (r: Option<u64>)
    ensures
        match subscription {
            Some(s) => match s.interval_hours {
                Some(h) => if s.enabled && h > 0 {
                    r == Some(if h * 3600 > u64::MAX { u64::MAX } else { (h * 3600) as u64 })
                } else {
                    r is None
                },
                None => r is None,
            },
            None => r is None,
        },
{
    let s = match subscription {
        None => {
            return None;
        },
        Some(s) => s,
    };
    if !s.enabled {
        return None;
    }
    let hours = match s.interval_hours {
        None => {
            return None;
        },
        Some(h) => h,
    };
    if hours == 0 {
        return None;
    }
    match hours.checked_mul(3600) {
        Some(secs) => Some(secs),
        None => Some(u64::MAX),
    }
}


/// A group with a manual selection is listed among the manual selections
/// as `{group} -> {proxy}`: after `select_proxy` succeeds, the profile
/// summary shows the choice.
pub proof fn law_selection_is_listed(groups: Seq<ProxyGroupConfig>, i: int, proxy: Seq<char>)
    requires
        0 <= i < groups.len(),
        opt_view(groups[i].selected) == Some(proxy),
    ensures
        selections(groups).contains(groups[i].name@ + " -> "@ + proxy),
    decreases groups.len(),
{
    if i == groups.len() - 1 {
        assert(selections(groups).last() == selection_line(groups.last()));
    } else {
        assert(groups.drop_last()[i] == groups[i]);
        law_selection_is_listed(groups.drop_last(), i, proxy);
        let inner = selections(groups.drop_last());
        let line = groups[i].name@ + " -> "@ + proxy;
        let k = choose|k: int| 0 <= k < inner.len() && inner[k] == line;
        if groups.last().selected is Some {
            assert(selections(groups) == inner.push(selection_line(groups.last())));
            assert(selections(groups)[k] == line);
        }
    }
}

} // verus!
