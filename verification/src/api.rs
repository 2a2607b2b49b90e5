//! What the HTTP API reports: the configured proxies and groups, traffic
//! totals, recent proxy failures, and which sessions a listing covers.
use vstd::prelude::*;

use crate::config::{Config, ProxyConfig, ProxyGroupConfig};
use crate::outbound::{failure_info_view, ProxyGroupState};
use crate::service::{find_runtime_selection, runtime_selection};
use crate::session::{session_views, sum_download, sum_upload, Session, SessionManager, SessionView};
use crate::text::{copy_opt, copy_strings, opt_view, str_eq, views};

use chrono::TimeZone;

verus! {

/// A configured proxy.
pub struct ProxyInfo {
    pub name: String,
    pub proxy_type: String,
    pub server: String,
    pub port: u16,
    pub udp: bool,
}

/// A proxy group, with what the engine has selected in it.
pub struct ProxyGroupInfo {
    pub name: String,
    pub group_type: String,
    pub proxies: Vec<String>,
    pub selected: Option<String>,
    pub runtime_selected: Option<String>,
}

/// Traffic of the active sessions.
pub struct TrafficInfo {
    pub upload: u64,
    pub download: u64,
    pub active_connections: usize,
}

/// A proxy's failure record, with its times in local time.
pub struct ProxyFailureInfo {
    pub name: String,
    pub message: String,
    pub first_failed_unix: u64,
    pub first_failed_local: Option<String>,
    pub last_failed_unix: u64,
    pub last_failed_local: Option<String>,
    pub failures: u32,
}

pub open spec fn proxy_info_matches(i: ProxyInfo, p: ProxyConfig) -> bool {
    &&& i.name@ == p.name@
    &&& i.proxy_type@ == p.proxy_type@
    &&& i.server@ == p.server@
    &&& i.port == p.port
    &&& i.udp == p.udp
}

/// The configured proxies.
pub fn proxy_infos(config: &Config) -> (r: Vec<ProxyInfo>)
    ensures
        r@.len() == config.proxies@.len(),
        forall|i: int| 0 <= i < r@.len() ==> proxy_info_matches(#[trigger] r@[i], config.proxies@[i]),
{
    let mut r: Vec<ProxyInfo> = Vec::new();
    let mut i: usize = 0;
    while i < config.proxies.len()
        invariant
            i <= config.proxies@.len(),
            r@.len() == i,
            forall|j: int| 0 <= j < i ==> proxy_info_matches(#[trigger] r@[j], config.proxies@[j]),
        decreases config.proxies.len() - i,
    {
        let p = &config.proxies[i];
        r.push(
            ProxyInfo {
                name: p.name.clone(),
                proxy_type: p.proxy_type.clone(),
                server: p.server.clone(),
                port: p.port,
                udp: p.udp,
            },
        );
        i += 1;
    }
    r
}

pub open spec fn group_info_matches(i: ProxyGroupInfo, g: ProxyGroupConfig, states: Seq<ProxyGroupState>) -> bool {
    &&& i.name@ == g.name@
    &&& i.group_type@ == g.group_type@
    &&& views(i.proxies@) == views(g.proxies@)
    &&& opt_view(i.selected) == opt_view(g.selected)
    &&& opt_view(i.runtime_selected) == runtime_selection(states, g.name@)
}

/// The configured groups, each with the engine's selection in it.
pub fn group_infos(config: &Config, states: &Vec<ProxyGroupState>) -> (r: Vec<ProxyGroupInfo>)
    ensures
        r@.len() == config.proxy_groups@.len(),
        forall|i: int| 0 <= i < r@.len() ==> group_info_matches(#[trigger] r@[i], config.proxy_groups@[i], states@),
{
    let mut r: Vec<ProxyGroupInfo> = Vec::new();
    let mut i: usize = 0;
    while i < config.proxy_groups.len()
        invariant
            i <= config.proxy_groups@.len(),
            r@.len() == i,
            forall|j: int| 0 <= j < i ==> group_info_matches(#[trigger] r@[j], config.proxy_groups@[j], states@),
        decreases config.proxy_groups.len() - i,
    {
        let g = &config.proxy_groups[i];
        r.push(
            ProxyGroupInfo {
                name: g.name.clone(),
                group_type: g.group_type.clone(),
                proxies: copy_strings(g.proxies.as_slice()),
                selected: copy_opt(&g.selected),
                runtime_selected: find_runtime_selection(states, g.name.as_str()),
            },
        );
        i += 1;
    }
    r
}

/// The traffic of the active sessions.
pub fn traffic_info(manager: &SessionManager) -> (r: TrafficInfo)
    requires
        sum_upload(manager.active()) <= u64::MAX,
        sum_download(manager.active()) <= u64::MAX,
    ensures
        r.upload == sum_upload(manager.active()),
        r.download == sum_download(manager.active()),
        r.active_connections == manager.active().len(),
{
    TrafficInfo {
        upload: manager.total_upload(),
        download: manager.total_download(),
        active_connections: manager.count(),
    }
}

/// A time as local date and time (`chrono::Local`, `%Y-%m-%d %H:%M:%S %z`).
/// Nothing is claimed of it: it depends on the machine's time zone.
#[verifier::external_body]
fn format_unix_local(unix: u64) -> Option<String> {
    match chrono::Local.timestamp_opt(unix as i64, 0).single() {
        Some(dt) => Some(dt.format("%Y-%m-%d %H:%M:%S %z").to_string()),
        None => None,
    }
}

/// The failure records of the outbound manager, with local times added.
pub fn failure_infos(failures: Vec<crate::outbound::ProxyFailureInfo>) -> (r: Vec<ProxyFailureInfo>)
    ensures
        r@.len() == failures@.len(),
        forall|i: int| 0 <= i < r@.len() ==> (#[trigger] r@[i]).name@ == failures@[i].name@ && r@[i].message@
            == failures@[i].message@ && r@[i].first_failed_unix == failures@[i].first_failed_unix
            && r@[i].last_failed_unix == failures@[i].last_failed_unix && r@[i].failures == failures@[i].failures,
{
    let mut r: Vec<ProxyFailureInfo> = Vec::new();
    let mut i: usize = 0;
    while i < failures.len()
        invariant
            i <= failures@.len(),
            r@.len() == i,
            forall|j: int| 0 <= j < i ==> (#[trigger] r@[j]).name@ == failures@[j].name@ && r@[j].message@
                == failures@[j].message@ && r@[j].first_failed_unix == failures@[j].first_failed_unix
                && r@[j].last_failed_unix == failures@[j].last_failed_unix && r@[j].failures == failures@[j].failures,
        decreases failures.len() - i,
    {
        let f = &failures[i];
        r.push(
            ProxyFailureInfo {
                name: f.name.clone(),
                message: f.message.clone(),
                first_failed_unix: f.first_failed_unix,
                first_failed_local: format_unix_local(f.first_failed_unix),
                last_failed_unix: f.last_failed_unix,
                last_failed_local: format_unix_local(f.last_failed_unix),
                failures: f.failures,
            },
        );
        i += 1;
    }
    r
}

/// How many sessions a listing shows: 100 by default, at least 1 and at
/// most 500.
pub fn session_limit(limit: Option<usize>) -> (r: usize)
    ensures
        r == match limit {
            None => 100,
            Some(l) => if l < 1 {
                1
            } else if l > 500 {
                500
            } else {
                l
            },
        },
{
    match limit {
        None => 100,
        Some(l) => if l < 1 {
            1
        } else if l > 500 {
            500
        } else {
            l
        },
    }
}

/// Which sessions a listing covers, before its limit: the recent closed
/// ones for `closed`, the active then the recent closed ones for `all`,
/// and the active ones otherwise.
pub open spec fn listed_sessions(active: Seq<SessionView>, closed: Seq<SessionView>, state: Option<Seq<char>>) -> Seq<SessionView> {
    if state == Some("closed"@) {
        closed
    } else if state == Some("all"@) {
        active + closed
    } else {
        active
    }
}

/// The sessions of a listing, at most `limit` of them.
pub fn select_sessions(manager: &SessionManager, state: Option<&str>, limit: usize) -> (r: Vec<Session>)
    ensures
        ({
            let closed = manager.history().take(vstd::math::min(vstd::math::min(limit as int, manager.limit() as int), manager.history().len() as int));
            let all = listed_sessions(manager.active(), closed, match state {
                Some(s) => Some(s@),
                None => None,
            });
            session_views(r@) == all.take(vstd::math::min(limit as int, all.len() as int))
        }),
{
    let is_closed = match state {
        Some(s) => str_eq(s, "closed"),
        None => false,
    };
    let is_all = match state {
        Some(s) => str_eq(s, "all"),
        None => false,
    };
    let items: Vec<Session> = if is_closed {
        manager.get_recent_closed(limit)
    } else if is_all {
        let mut a = manager.get_active();
        let mut c = manager.get_recent_closed(limit);
        let ghost av = session_views(a@);
        let ghost cv = session_views(c@);
        a.append(&mut c);
        assert(session_views(a@) =~= av + cv);
        a
    } else {
        manager.get_active()
    };
    let n = if limit < items.len() {
        limit
    } else {
        items.len()
    };
    let mut r: Vec<Session> = Vec::new();
    let mut i: usize = 0;
    while i < n
        invariant
            i <= n,
            n <= items@.len(),
            session_views(r@) == session_views(items@).take(i as int),
        decreases n - i,
    {
        let ghost before = session_views(r@);
        r.push(items[i].copy());
        assert(before.len() == i);
        assert(r@.len() == i + 1);
        assert forall|j: int| 0 <= j <= i implies #[trigger] session_views(r@)[j] == session_views(items@).take(i + 1)[j] by {
            if j < i {
                assert(session_views(r@)[j] == before[j]);
            }
        }
        assert(session_views(r@) =~= session_views(items@).take(i + 1));
        i += 1;
    }
    r
}

} // verus!
