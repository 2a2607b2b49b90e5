use std::hash::{Hash, Hasher};
use titan::api::{group_infos, proxy_infos, select_sessions, session_limit, traffic_info, ProxyGroupInfo};
use titan::config::{Config, ProxyConfig, ProxyGroupConfig};
use titan::desktop::{
    active_node, api_base_url, frontend_status, last_lines, log_line, recent_log_count, session_dto, split_host_port,
    traffic_dto, DesktopConfig,
};
use titan::dns::IpAddress;
use titan::outbound::ProxyGroupState;
use titan::service::{Endpoint, RuntimeState};
use titan::session::{Session, SessionManager, SessionState};
use titan::tun::{derive_server_seq, extract_dns_mapping, is_local_multicast, parse_dns_name, should_hijack_dns};

fn info(name: &str, runtime: Option<&str>, selected: Option<&str>) -> ProxyGroupInfo {
    ProxyGroupInfo {
        name: name.to_string(),
        group_type: "select".to_string(),
        proxies: vec![],
        selected: selected.map(|s| s.to_string()),
        runtime_selected: runtime.map(|s| s.to_string()),
    }
}

#[test]
fn desktop_defaults_and_status() {
    let c = DesktopConfig::default_config();
    assert_eq!((c.inbound_bind.as_str(), c.inbound_port, c.api_port), ("127.0.0.1", 7890, 9090));
    assert_eq!(c.config_path, "data/config.yaml");
    assert_eq!(api_base_url(&c), "http://127.0.0.1:9090");
    let mut rt = RuntimeState::new();
    let s = frontend_status(&c, &rt, false, None);
    assert!(!s.engine_running);
    assert_eq!((s.inbound_bind.as_str(), s.inbound_port), ("127.0.0.1", 7890));
    rt.set_starting("p".to_string(), Endpoint { ip: "0.0.0.0".to_string(), port: 1080 });
    rt.set_running(None, true);
    let s = frontend_status(&c, &rt, true, Some("node-a".to_string()));
    assert!(s.engine_running && s.system_proxy_enabled);
    assert_eq!((s.inbound_bind.as_str(), s.inbound_port), ("0.0.0.0", 1080));
    assert_eq!(s.active_node.as_deref(), Some("node-a"));
    assert!(s.error.is_none());
    rt.set_failed("boom".to_string());
    assert_eq!(frontend_status(&c, &rt, false, None).error.as_deref(), Some("boom"));
}

#[test]
fn active_node_prefers_runtime_selection() {
    let groups = vec![info("a", None, None), info("b", None, Some("x")), info("c", Some("y"), None)];
    assert_eq!(active_node(&groups), Some("x".to_string()));
    let groups = vec![info("a", Some("r"), Some("s"))];
    assert_eq!(active_node(&groups), Some("r".to_string()));
    assert_eq!(active_node(&vec![]), None);
}

#[test]
fn splits_host_and_port() {
    assert_eq!(split_host_port("127.0.0.1:7890"), ("127.0.0.1".to_string(), 7890));
    assert_eq!(split_host_port("example.com"), ("example.com".to_string(), 0));
    assert_eq!(split_host_port("example.com:99999"), ("example.com:99999".to_string(), 0));
    assert_eq!(split_host_port("[::1]:53"), ("[::1]".to_string(), 53));
}

#[test]
fn logs_and_counts() {
    assert_eq!(recent_log_count(None), 80);
    assert_eq!(recent_log_count(Some(3)), 10);
    assert_eq!(recent_log_count(Some(900)), 500);
    assert_eq!(recent_log_count(Some(42)), 42);
    let lines: Vec<String> = (0..5).map(|i| i.to_string()).collect();
    assert_eq!(last_lines(lines.clone(), 2), vec!["3".to_string(), "4".to_string()]);
    assert_eq!(last_lines(lines.clone(), 9), lines);
    assert_eq!(log_line(17, "info", "started"), "[17] info  started");
    assert_eq!(log_line(17, "error", "x"), "[17] error x");
    assert_eq!(log_line(1, "verbose", "x"), "[1] verbose x");
    let t = traffic_dto(Some((10, 20, 3)));
    assert_eq!((t.total_upload_bytes, t.total_download_bytes, t.active_connections), (10, 20, 3));
    let z = traffic_dto(None);
    assert_eq!((z.total_upload_bytes, z.upload_bytes_per_second, z.active_connections), (0, 0, 0));
}

#[test]
fn sessions_as_listed() {
    let mut m = SessionManager::new();
    let s1 = m.create_with(
        "10.0.0.2:5000".to_string(),
        "example.com:443".to_string(),
        "node-a".to_string(),
        Some("auto".to_string()),
        Some("MATCH".to_string()),
        "s1".to_string(),
        1_000,
    );
    assert!(s1.state == SessionState::Active);
    m.create_with("a:1".to_string(), "b:2".to_string(), "DIRECT".to_string(), None, None, "s2".to_string(), 2_000);
    m.update_traffic("s1", 100, 200);
    assert_eq!(m.count(), 2);
    assert_eq!(m.total_upload(), 100);
    assert_eq!(m.total_download(), 200);
    let t = traffic_info(&m);
    assert_eq!((t.upload, t.download, t.active_connections), (100, 200, 2));
    let got = m.get("s1").unwrap();
    let dto = session_dto(&got, 4_500);
    assert_eq!((dto.source_ip.as_str(), dto.source_port), ("10.0.0.2", 5000));
    assert_eq!((dto.destination_host.as_str(), dto.destination_port), ("example.com", 443));
    assert_eq!(dto.proxy_node_id.as_deref(), Some("node-a"));
    assert_eq!(dto.rule_id.as_deref(), Some("MATCH"));
    assert_eq!((dto.upload_bytes, dto.download_bytes, dto.start_time), (100, 200, 3));
    assert_eq!(dto.status, "active");
    m.close_at("s1", 9_000);
    assert!(m.get("s1").is_none());
    assert_eq!(m.count(), 1);
    let closed = m.get_recent_closed(10);
    assert_eq!(closed.len(), 1);
    assert_eq!(closed[0].closed_at, Some(9_000));
    assert_eq!(closed[0].duration(20_000), 8_000);
    assert_eq!(select_sessions(&m, Some("closed"), 10).len(), 1);
    assert_eq!(select_sessions(&m, Some("all"), 10).len(), 2);
    assert_eq!(select_sessions(&m, None, 10)[0].id, "s2");
    assert_eq!(select_sessions(&m, Some("all"), 1).len(), 1);
    assert_eq!(session_limit(None), 100);
    assert_eq!(session_limit(Some(0)), 1);
    assert_eq!(session_limit(Some(1000)), 500);
    m.close_all();
    assert_eq!(m.count(), 0);
    m.clear_history();
    assert!(m.get_recent_closed(10).is_empty());
    let s = Session::new("a".to_string(), "b".to_string(), "p".to_string(), None, None, "i".to_string(), 5);
    assert_eq!(s.total_traffic(), 0);
}

#[test]
fn api_views_of_a_profile() {
    let mut c = Config::empty();
    let mut p = ProxyConfig::empty();
    p.name = "n".to_string();
    p.proxy_type = "anytls".to_string();
    p.server = "s.example".to_string();
    p.port = 8443;
    p.udp = true;
    c.proxies = vec![p];
    c.proxy_groups = vec![ProxyGroupConfig::new("g".to_string(), "select".to_string(), vec!["n".to_string()])];
    let infos = proxy_infos(&c);
    assert_eq!(infos.len(), 1);
    assert_eq!((infos[0].name.as_str(), infos[0].port, infos[0].udp), ("n", 8443, true));
    let states = vec![ProxyGroupState { name: "g".to_string(), group_type: "select".to_string(), selected: Some("n".to_string()) }];
    let groups = group_infos(&c, &states);
    assert_eq!(groups[0].runtime_selected.as_deref(), Some("n"));
    assert!(groups[0].selected.is_none());
    assert_eq!(groups[0].proxies, vec!["n".to_string()]);
}

fn dns_answer() -> Vec<u8> {
    vec![
        0x12, 0x34, 0x81, 0x80, 0x00, 0x01, 0x00, 0x02, 0x00, 0x00, 0x00, 0x00, 0x07, b'e', b'x', b'a', b'm', b'p', b'l',
        b'e', 0x03, b'c', b'o', b'm', 0x00, 0x00, 0x01, 0x00, 0x01, 0xC0, 0x0C, 0x00, 0x01, 0x00, 0x01, 0x00, 0x00,
        0x00, 0x3C, 0x00, 0x04, 93, 184, 216, 34, 0xC0, 0x0C, 0x00, 0x01, 0x00, 0x01, 0x00, 0x00, 0x00, 0x1E, 0x00,
        0x04, 93, 184, 216, 35,
    ]
}

#[test]
fn dns_mappings_from_answers() {
    let (host, ips, ttl) = extract_dns_mapping(&dns_answer()).unwrap();
    assert_eq!(host, "example.com");
    assert_eq!(ips, vec![IpAddress::V4(93, 184, 216, 34), IpAddress::V4(93, 184, 216, 35)]);
    assert_eq!(ttl, 30);
    let mut no_answers = dns_answer();
    no_answers[7] = 0;
    assert!(extract_dns_mapping(&no_answers).is_none());
    assert!(extract_dns_mapping(&[0u8; 5]).is_none());
    let msg = dns_answer();
    let mut offset = 12usize;
    assert_eq!(parse_dns_name(&msg, &mut offset, 0), Some("example.com".to_string()));
    assert_eq!(offset, 25);
    let mut offset = 29usize;
    assert_eq!(parse_dns_name(&msg, &mut offset, 0), Some("example.com".to_string()));
    assert_eq!(offset, 31);
}

#[test]
fn dns_hijack_rules() {
    let rules = vec![" 198.18.0.2:53 ".to_string()];
    assert!(should_hijack_dns(&rules, Some(53), "198.18.0.2"));
    assert!(!should_hijack_dns(&rules, Some(53), "8.8.8.8"));
    assert!(!should_hijack_dns(&rules, Some(443), "198.18.0.2"));
    assert!(should_hijack_dns(&vec!["ANY:53".to_string()], Some(53), "8.8.8.8"));
    assert!(should_hijack_dns(&vec!["53".to_string()], Some(53), "1.1.1.1"));
    assert!(!should_hijack_dns(&vec![], Some(53), "1.1.1.1"));
    assert!(!should_hijack_dns(&vec!["any:53".to_string()], None, "1.1.1.1"));
}

#[test]
fn multicast_destinations() {
    assert!(is_local_multicast(&IpAddress::V4(224, 0, 0, 251)));
    assert!(is_local_multicast(&IpAddress::V4(239, 255, 255, 250)));
    assert!(is_local_multicast(&IpAddress::V4(255, 255, 255, 255)));
    assert!(!is_local_multicast(&IpAddress::V4(192, 168, 1, 1)));
    let mut v6 = [0u8; 16];
    v6[0] = 0xff;
    assert!(is_local_multicast(&IpAddress::V6(v6)));
    assert!(!is_local_multicast(&IpAddress::V6([0u8; 16])));
}

#[test]
fn server_sequence_numbers_are_stable() {
    let a = derive_server_seq("10.0.0.1:1000->1.1.1.1:443");
    let b = derive_server_seq("10.0.0.1:1000->1.1.1.1:443");
    assert_eq!(a, b);
    let mut h = std::collections::hash_map::DefaultHasher::new();
    "10.0.0.1:1000->1.1.1.1:443".hash(&mut h);
    assert_eq!(a, (h.finish() % 0x1_0000_0000) as u32);
}
