use titan::config::{Config, ProxyConfig, ProxyGroupConfig};
use titan::outbound::{choose_fallback, choose_url_test, latency_test_setup, proxy_kind, OutboundManager, ProxyKind};

fn node(name: &str, server: &str, password: &str) -> ProxyConfig {
    let mut p = ProxyConfig::empty();
    p.name = name.to_string();
    p.proxy_type = "anytls".to_string();
    p.server = server.to_string();
    p.port = 443;
    p.password = Some(password.to_string());
    p
}

fn two_node_config() -> Config {
    let mut config = Config::empty();
    config.proxies = vec![node("node-a", "example.com", "secret-a"), node("node-b", "example.org", "secret-b")];
    let mut group =
        ProxyGroupConfig::new("auto".to_string(), "select".to_string(), vec!["node-a".to_string(), "node-b".to_string()]);
    group.selected = Some("node-a".to_string());
    config.proxy_groups = vec![group];
    config
}

#[test]
fn falls_back_to_next_proxy_when_selected_proxy_is_unhealthy() {
    let config = two_node_config();
    let mut manager = OutboundManager::from_config(&config);
    manager.mark_unhealthy("node-a", 60_000);
    let resolved_name = manager.resolve("auto", &[]).unwrap();
    assert_eq!(resolved_name, "node-b");
}

#[test]
fn excludes_marked_proxy_when_resolving_group() {
    let config = two_node_config();
    let manager = OutboundManager::from_config(&config);
    let excluded = vec!["node-a".to_string()];
    let resolved_name = manager.resolve("auto", &excluded).unwrap();
    assert_eq!(resolved_name, "node-b");
}

#[test]
fn selected_member_is_used_while_healthy() {
    let manager = OutboundManager::from_config(&two_node_config());
    assert_eq!(manager.resolve("auto", &[]), Some("node-a".to_string()));
    assert_eq!(manager.resolve("node-b", &[]), Some("node-b".to_string()));
    assert_eq!(manager.resolve("DIRECT", &[]), Some("DIRECT".to_string()));
    assert_eq!(manager.resolve("missing", &[]), None);
}

#[test]
fn unhealthy_window_ends() {
    let mut manager = OutboundManager::from_config(&two_node_config());
    manager.mark_unhealthy_at("node-a", 1_000, "timeout".to_string(), 5_000, 100);
    assert!(!manager.is_proxy_available("node-a", 5_500));
    assert!(manager.is_proxy_available("node-a", 6_000));
    assert_eq!(manager.resolve_at("auto", &[], 5_500), Some("node-b".to_string()));
    assert_eq!(manager.resolve_at("auto", &[], 6_000), Some("node-a".to_string()));
    assert_eq!(manager.unhealthy_proxies_at(5_500), vec!["node-a".to_string()]);
    assert!(manager.unhealthy_proxies_at(6_000).is_empty());
    let failures = manager.failure_states();
    assert_eq!(failures.len(), 1);
    assert_eq!(failures[0].name, "node-a");
    assert_eq!(failures[0].message, "timeout");
    assert_eq!(failures[0].failures, 1);
    assert_eq!(failures[0].first_failed_unix, 100);
}

#[test]
fn direct_and_reject_are_never_marked() {
    let mut manager = OutboundManager::from_config(&two_node_config());
    manager.mark_unhealthy_at("DIRECT", 1_000, "x".to_string(), 0, 0);
    assert!(manager.is_proxy_available("DIRECT", 10));
    assert!(manager.failure_states().is_empty());
}

#[test]
fn group_selection_can_change() {
    let mut manager = OutboundManager::from_config(&two_node_config());
    manager.set_selected("auto", "node-b".to_string());
    assert_eq!(manager.resolve("auto", &[]), Some("node-b".to_string()));
    let states = manager.group_states();
    assert_eq!(states.len(), 1);
    assert_eq!(states[0].name, "auto");
    assert_eq!(states[0].selected, Some("node-b".to_string()));
    assert_eq!(manager.list(), vec!["node-a".to_string(), "node-b".to_string(), "DIRECT".to_string(), "REJECT".to_string()]);
}

#[test]
fn url_test_and_fallback_choices() {
    let results = vec![
        ("a".to_string(), None),
        ("b".to_string(), Some(120u64)),
        ("c".to_string(), Some(80u64)),
        ("d".to_string(), Some(80u64)),
    ];
    assert_eq!(choose_url_test(&results, Some("z".to_string())), Some("c".to_string()));
    assert_eq!(choose_fallback(&results, Some("z".to_string())), Some("b".to_string()));
    let failed = vec![("a".to_string(), None)];
    assert_eq!(choose_url_test(&failed, Some("z".to_string())), Some("z".to_string()));
    assert_eq!(choose_fallback(&failed, None), None);
}

#[test]
fn proxy_kinds() {
    assert!(matches!(proxy_kind("AnyTLS"), ProxyKind::AnyTls));
    assert!(matches!(proxy_kind("socks"), ProxyKind::Socks5));
    assert!(matches!(proxy_kind("HTTP"), ProxyKind::Http));
    assert!(matches!(proxy_kind("vmess"), ProxyKind::Vmess));
    assert!(matches!(proxy_kind("VLESS"), ProxyKind::Vless));
    assert!(matches!(proxy_kind("trojan"), ProxyKind::Skipped));
    assert!(matches!(proxy_kind("wireguard"), ProxyKind::Unsupported));
}

#[test]
fn vless_and_vmess_are_carried() {
    let mut config = Config::empty();
    let mut v = node("v", "vless.example", "x");
    v.proxy_type = "vless".to_string();
    v.uuid = Some("123e4567-e89b-12d3-a456-426614174000".to_string());
    let mut m = node("m", "vmess.example", "x");
    m.proxy_type = "VMess".to_string();
    let mut t = node("t", "trojan.example", "x");
    t.proxy_type = "trojan".to_string();
    config.proxies = vec![v, m, t];
    let manager = OutboundManager::from_config(&config);
    assert_eq!(
        manager.list(),
        vec!["v".to_string(), "m".to_string(), "DIRECT".to_string(), "REJECT".to_string()]
    );
    assert_eq!(manager.get("v"), Some("v".to_string()));
    assert_eq!(manager.get("m"), Some("m".to_string()));
    assert_eq!(manager.get("t"), None);
}

#[test]
fn latency_tests_use_the_group_url() {
    let mut g = ProxyGroupConfig::new("auto".to_string(), "url-test".to_string(), vec![]);
    assert_eq!(latency_test_setup(&g), ("http://www.gstatic.com/generate_204".to_string(), 5000));
    g.url = Some("http://example.com/ping".to_string());
    assert_eq!(latency_test_setup(&g), ("http://example.com/ping".to_string(), 5000));
}
