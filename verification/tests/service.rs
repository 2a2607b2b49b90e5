use titan::cli::{protocol_stats, redact_url, resolve_categories, sessions_path, subscribe_settings, test_item_line, trim_api_base, SubscribeError};
use titan::config::{Config, ProxyConfig, ProxyGroupConfig, SubscriptionConfig};
use titan::outbound::ProxyGroupState;
use titan::service::{
    can_start, engine_group_views, find_runtime_selection, import_result, imported_subscription, manual_selections,
    profile_summary, proxy_overview, refresh_interval_secs, select_proxy, subscription_usage, system_proxy_status,
    Endpoint, RuntimeSnapshot, RuntimeState, RuntimeStatus, SelectError,
};
use titan::subscription::SubscriptionMetadata;
use titan::testing::{
    build_report, collect_group_proxies, count_statuses, summarize_report, test_item, test_items, test_plan, ProxyTestStatus,
    TestError,
};

fn proxy(name: &str, kind: &str, udp: bool) -> ProxyConfig {
    let mut p = ProxyConfig::empty();
    p.name = name.to_string();
    p.proxy_type = kind.to_string();
    p.server = format!("{}.example", name);
    p.port = 443;
    p.udp = udp;
    p
}

fn group(name: &str, kind: &str, members: &[&str]) -> ProxyGroupConfig {
    ProxyGroupConfig::new(name.to_string(), kind.to_string(), members.iter().map(|m| m.to_string()).collect())
}

fn sample() -> Config {
    let mut c = Config::empty();
    c.mode = "rule".to_string();
    c.log_level = "info".to_string();
    c.proxies = vec![proxy("b", "anytls", true), proxy("a", "vmess", false), proxy("c", "AnyTLS", true)];
    let mut sel = group("main", "select", &["b", "inner", "DIRECT"]);
    sel.selected = Some("b".to_string());
    c.proxy_groups = vec![sel, group("inner", "url-test", &["c", "a", "main", "missing"])];
    c.rules = (0..15).map(|i| format!("DOMAIN,d{}.test,DIRECT", i)).collect();
    c
}

#[test]
fn runtime_lifecycle() {
    let mut state = RuntimeState::new();
    assert!(matches!(state.status, RuntimeStatus::Stopped));
    assert!(can_start(&state));
    state.set_starting("/tmp/c.yaml".to_string(), Endpoint { ip: "127.0.0.1".to_string(), port: 7890 });
    assert!(matches!(state.status, RuntimeStatus::Starting));
    state.set_running(Some(Endpoint { ip: "127.0.0.1".to_string(), port: 9090 }), true);
    assert!(!can_start(&state));
    let snap = state.snapshot();
    assert!(snap.running);
    assert_eq!(snap.config_path.as_deref(), Some("/tmp/c.yaml"));
    assert_eq!(snap.mixed_bind.as_deref(), Some("127.0.0.1"));
    assert_eq!(snap.mixed_port, Some(7890));
    assert_eq!(snap.api_port, Some(9090));
    assert!(snap.system_proxy_enabled);
    state.set_stopping();
    assert!(matches!(state.status, RuntimeStatus::Stopping));
    state.set_failed("bind failed".to_string());
    assert!(matches!(&state.status, RuntimeStatus::Failed(m) if m == "bind failed"));
    assert!(can_start(&state));
    state.set_stopped();
    assert!(matches!(state.status, RuntimeStatus::Stopped));
    let stopped = RuntimeSnapshot::stopped();
    assert!(!stopped.running && stopped.config_path.is_none() && stopped.mixed_port.is_none());
}

#[test]
fn system_proxy_and_imports() {
    let s = system_proxy_status(Some((true, "127.0.0.1:7890".to_string(), "".to_string())));
    assert!(s.supported && s.enabled);
    assert_eq!(s.server.as_deref(), Some("127.0.0.1:7890"));
    assert!(s.bypass.is_none());
    let none = system_proxy_status(None);
    assert!(!none.supported && !none.enabled);
    let sub = imported_subscription("https://sub.example");
    assert_eq!((sub.url.as_str(), sub.interval_hours, sub.enabled), ("https://sub.example", None, true));
    let r = import_result("/out.yaml", &sample());
    assert_eq!((r.output_path.as_str(), r.proxy_count, r.proxy_group_count, r.rule_count), ("/out.yaml", 3, 2, 15));
}

#[test]
fn profile_views() {
    let c = sample();
    assert_eq!(manual_selections(&c), vec!["main -> b".to_string()]);
    let mut meta = SubscriptionMetadata::empty();
    meta.upload = Some(10);
    meta.download = Some(5);
    meta.total = Some(100);
    let usage = subscription_usage(&meta);
    assert_eq!((usage.used, usage.remaining), (Some(15), Some(85)));
    let summary = profile_summary("/p.yaml", &c, Some(&meta));
    assert_eq!(summary.proxy_count, 3);
    assert_eq!(summary.udp_proxy_count, 2);
    assert_eq!(summary.rule_preview.len(), 12);
    assert_eq!(summary.rule_preview[0], "DOMAIN,d0.test,DIRECT");
    assert_eq!(summary.mode, "rule");
    assert!(summary.subscription.is_some());
    assert!(profile_summary("/p.yaml", &c, None).subscription.is_none());
    let (nodes, groups) = proxy_overview(&c);
    assert_eq!(nodes.len(), 3);
    assert_eq!(nodes[0].name, "b");
    assert!(nodes[0].healthy && nodes[0].udp);
    assert_eq!(groups[0].selected.as_deref(), Some("b"));
    assert!(groups[0].runtime_selected.is_none());
    let states = vec![ProxyGroupState { name: "main".to_string(), group_type: "select".to_string(), selected: Some("c".to_string()) }];
    assert_eq!(find_runtime_selection(&states, "main"), Some("c".to_string()));
    assert_eq!(find_runtime_selection(&states, "inner"), None);
    let views = engine_group_views(&c, &states);
    assert_eq!(views[0].runtime_selected.as_deref(), Some("c"));
    assert!(views[1].runtime_selected.is_none());
}

#[test]
fn manual_selection_rules() {
    let mut c = sample();
    assert_eq!(select_proxy(&mut c, "main", "inner"), Ok(()));
    assert_eq!(c.proxy_groups[0].selected.as_deref(), Some("inner"));
    assert_eq!(manual_selections(&c), vec!["main -> inner".to_string()]);
    assert_eq!(select_proxy(&mut c, "nope", "b"), Err(SelectError::GroupNotFound));
    assert_eq!(select_proxy(&mut c, "inner", "c"), Err(SelectError::NotSelectGroup));
    assert_eq!(select_proxy(&mut c, "main", "a"), Err(SelectError::NotAMember));
    assert_eq!(c.proxy_groups[0].selected.as_deref(), Some("inner"));
}

#[test]
fn refresh_intervals() {
    let sub = |h: Option<u64>, enabled: bool| Some(SubscriptionConfig { url: "u".to_string(), interval_hours: h, enabled });
    assert_eq!(refresh_interval_secs(&sub(Some(6), true)), Some(21_600));
    assert_eq!(refresh_interval_secs(&sub(Some(0), true)), None);
    assert_eq!(refresh_interval_secs(&sub(Some(6), false)), None);
    assert_eq!(refresh_interval_secs(&sub(None, true)), None);
    assert_eq!(refresh_interval_secs(&sub(Some(u64::MAX), true)), Some(u64::MAX));
    assert_eq!(refresh_interval_secs(&None), None);
}

#[test]
fn group_proxies_are_collected_in_order() {
    let c = sample();
    assert_eq!(collect_group_proxies(&c, "main"), Ok(vec!["a".to_string(), "b".to_string(), "c".to_string()]));
    assert_eq!(collect_group_proxies(&c, "missing"), Err(TestError::GroupNotFound));
    let (mode, scope, targets) = test_plan(&c, None, Some("inner")).unwrap();
    assert_eq!((mode.as_str(), scope.as_str()), ("group", "inner"));
    assert_eq!(targets, vec!["a".to_string(), "b".to_string(), "c".to_string()]);
    let (mode, scope, targets) = test_plan(&c, None, None).unwrap();
    assert_eq!((mode.as_str(), scope.as_str()), ("all proxies", "3 configured proxies"));
    assert_eq!(targets, vec!["b".to_string(), "a".to_string(), "c".to_string()]);
    let (mode, scope, targets) = test_plan(&c, Some("x"), Some("main")).unwrap();
    assert_eq!((mode.as_str(), scope.as_str(), targets), ("single proxy", "x", vec!["x".to_string()]));
    assert_eq!(test_plan(&Config::empty(), None, None).err(), Some(TestError::NoTargets));
    let mut only_builtin = Config::empty();
    only_builtin.proxy_groups = vec![group("g", "select", &["DIRECT", "REJECT"])];
    assert_eq!(test_plan(&only_builtin, None, Some("g")).err(), Some(TestError::NoTargets));
}

#[test]
fn test_reports() {
    let items = vec![
        test_item("a".to_string(), Some(("a".to_string(), Ok(42)))),
        test_item("b".to_string(), Some(("b".to_string(), Err("timed out".to_string())))),
        test_item("c".to_string(), None),
        test_item("d".to_string(), Some(("d".to_string(), Ok(7)))),
    ];
    assert_eq!(items[0].status, ProxyTestStatus::Passed);
    assert_eq!(items[0].message.as_deref(), Some("ok 42 ms"));
    assert_eq!(items[1].status, ProxyTestStatus::Failed);
    assert_eq!(items[2].message.as_deref(), Some("unsupported or unresolved"));
    assert_eq!(count_statuses(&items), (2, 1, 1));
    assert_eq!(test_item_line(&items[0]), "[ok] a -> a ok 42 ms");
    assert_eq!(test_item_line(&items[2]), "[skip] c unsupported or unresolved");
    assert_eq!(test_item_line(&items[1]), "[fail] b -> b timed out");
    let report = build_report("group".to_string(), "g".to_string(), "http://t".to_string(), 5000, 12, items);
    assert_eq!((report.ok, report.failed, report.skipped), (2, 1, 1));
    assert_eq!(
        summarize_report(&report),
        vec![("failed".to_string(), 1), ("ok".to_string(), 2), ("skipped".to_string(), 1)]
    );
}

#[test]
fn cli_helpers() {
    let stats = protocol_stats(&sample());
    assert_eq!(stats, vec![("ANYTLS".to_string(), 2), ("VMESS".to_string(), 1)]);
    assert_eq!(trim_api_base("http://127.0.0.1:9090///"), "http://127.0.0.1:9090");
    assert_eq!(sessions_path(None, 50), "/sessions?state=active&limit=50");
    assert_eq!(sessions_path(Some("closed"), 5), "/sessions?state=closed&limit=5");
    assert_eq!(redact_url("https://sub.example/x?token=abc"), "https://sub.example/x");
    assert_eq!(subscribe_settings(None, None, None).err(), Some(SubscribeError::MissingUrl));
    let existing = SubscriptionConfig { url: "https://old".to_string(), interval_hours: Some(3), enabled: false };
    let s = subscribe_settings(None, Some(&existing), None).unwrap();
    assert_eq!((s.url.as_str(), s.interval_hours, s.enabled), ("https://old", Some(3), true));
    let s = subscribe_settings(Some("https://new"), Some(&existing), Some(12)).unwrap();
    assert_eq!((s.url.as_str(), s.interval_hours), ("https://new", Some(12)));
}

#[test]
fn geosite_categories() {
    let rules = vec![
        "GEOSITE,Google,auto".to_string(),
        "geosite, cn ,DIRECT".to_string(),
        "DOMAIN,example.com,DIRECT".to_string(),
        "GEOSITE,google,REJECT".to_string(),
        "GEOSITE".to_string(),
    ];
    assert_eq!(resolve_categories(&rules, None), vec!["cn".to_string(), "google".to_string()]);
    assert_eq!(resolve_categories(&rules, Some("  YouTube ")), vec!["youtube".to_string()]);
    assert!(resolve_categories(&vec![], None).is_empty());
}

#[test]
fn apnic_data_is_recognised() {
    assert!(titan::cli::looks_like_apnic("apnic|CN|ipv4|1.0.1.0|256|20110414|allocated"));
    assert!(titan::cli::looks_like_apnic("arin|US|ipv4|3.0.0.0|1|x"));
    assert!(!titan::cli::looks_like_apnic("<html>not found</html>"));
}

#[test]
fn listing_lines() {
    let mut p = proxy("node-a", "anytls", false);
    p.port = 8443;
    assert_eq!(p.summary_line(), "[ANYTLS] node-a (node-a.example:8443)");
    let mut g = group("auto", "select", &["a", "b"]);
    assert_eq!(g.summary_line(), "[select] auto (2 proxies)");
    g.selected = Some("b".to_string());
    assert_eq!(g.summary_line(), "[select] auto (2 proxies, selected: b)");
}

#[test]
fn items_follow_the_targets() {
    let items = test_items(
        vec!["a".to_string(), "b".to_string()],
        vec![None, Some(("b".to_string(), Ok(12)))],
    );
    assert_eq!(items.len(), 2);
    assert_eq!(items[0].requested_name, "a");
    assert_eq!(items[0].status, ProxyTestStatus::Skipped);
    assert_eq!(items[1].requested_name, "b");
    assert_eq!(items[1].status, ProxyTestStatus::Passed);
    assert_eq!(items[1].latency_ms, Some(12));
}

#[test]
fn skipped_items_are_the_unresolved_targets() {
    let items = test_items(
        vec!["a".to_string(), "b".to_string(), "c".to_string()],
        vec![None, Some(("b".to_string(), Err("timeout".to_string()))), None],
    );
    let report = build_report("m".to_string(), "s".to_string(), "u".to_string(), 5000, 7, items);
    assert_eq!(report.skipped, 2);
    assert_eq!(report.failed, 1);
    assert_eq!(report.ok, 0);
    assert_eq!(report.ok + report.failed + report.skipped, report.items.len());
}
