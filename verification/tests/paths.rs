use titan::desktop::{
    app_base_dir, app_data_dir, desktop_config_path, desktop_log_path, find_workspace_root, resolve_user_path,
    DesktopConfig,
};
use titan::paths::{
    candidate_log_paths, data_dir, default_cli_log_path, default_config_path, default_desktop_log_path,
    default_geoip_path, default_geosite_dir, default_tun_config_path, default_tun_state_path, display_path,
    default_proxy_config_path, resolve_config_path, resolve_state_path, resolve_workspace_path, resolve_workspace_str,
    subscription_metadata_path, workspace_root,
};

const MANIFEST: &str = "/work/titan/crates/cli";

#[test]
fn workspace_layout() {
    assert_eq!(workspace_root(MANIFEST), "/work/titan");
    assert_eq!(workspace_root("/x"), "/x");
    assert_eq!(workspace_root("a/b"), "");
    assert_eq!(data_dir(MANIFEST), "/work/titan/data");
    assert_eq!(default_config_path(MANIFEST), "/work/titan/data/config.yaml");
    assert_eq!(default_geoip_path(MANIFEST), "/work/titan/data/geoip-apnic.raw");
    assert_eq!(default_geosite_dir(MANIFEST), "/work/titan/data/geosite");
    assert_eq!(default_cli_log_path(MANIFEST), "/work/titan/data/titan.log");
    assert_eq!(default_desktop_log_path(MANIFEST), "/work/titan/data/desktop.log");
    assert_eq!(default_tun_config_path(MANIFEST), "/work/titan/data/tun.yaml");
    assert_eq!(default_tun_state_path(MANIFEST), "/work/titan/data/tun-state.yaml");
    assert_eq!(
        candidate_log_paths(MANIFEST),
        vec!["/work/titan/data/titan.log".to_string(), "/work/titan/data/desktop.log".to_string()]
    );
}

#[test]
fn workspace_paths_resolve() {
    assert_eq!(resolve_workspace_path(MANIFEST, "/etc/titan.yaml"), "/etc/titan.yaml");
    assert_eq!(resolve_workspace_path(MANIFEST, "data/x.yaml"), "/work/titan/data/x.yaml");
    assert_eq!(resolve_workspace_str(MANIFEST, "p.yaml"), "/work/titan/p.yaml");
    assert_eq!(display_path("/work/titan/data"), "/work/titan/data");
}

#[test]
fn metadata_lives_beside_the_profile() {
    assert_eq!(subscription_metadata_path("/work/titan/data/config.yaml"), "/work/titan/data/config.subscription.yaml");
    assert_eq!(subscription_metadata_path("config.yaml"), "config.subscription.yaml");
    assert_eq!(subscription_metadata_path("/"), "subscription.subscription.yaml");
}

#[test]
fn desktop_paths() {
    assert_eq!(app_data_dir("/opt/titan"), "/opt/titan/data");
    assert_eq!(desktop_config_path("/opt/titan"), "/opt/titan/data/desktop-config.json");
    assert_eq!(desktop_log_path("/opt/titan"), "/opt/titan/data/desktop.log");
    assert_eq!(resolve_user_path("/opt/titan", "data/config.yaml"), "/opt/titan/data/config.yaml");
    assert_eq!(resolve_user_path("/opt/titan", "/etc/c.yaml"), "/etc/c.yaml");
    assert_eq!(DesktopConfig::default_config().resolved_config_path("/opt/titan"), "/opt/titan/data/config.yaml");
    let ancestors = vec![("/a/b/c".to_string(), false), ("/a/b".to_string(), true), ("/a".to_string(), true)];
    assert_eq!(find_workspace_root(&ancestors), Some("/a/b".to_string()));
    assert_eq!(find_workspace_root(&[("/x".to_string(), false)]), None);
    assert_eq!(app_base_dir("/cwd", Some("/ws".to_string()), None, None, false), "/ws");
    assert_eq!(app_base_dir("/cwd", None, Some("/bin".to_string()), Some("/ws2".to_string()), true), "/ws2");
    assert_eq!(app_base_dir("/cwd", None, Some("/bin".to_string()), None, true), "/bin");
    assert_eq!(app_base_dir("/cwd", None, Some("/bin".to_string()), None, false), "/cwd");
    assert_eq!(app_base_dir("/cwd", None, None, None, true), "/cwd");
}

#[test]
fn tun_paths() {
    assert_eq!(resolve_config_path(MANIFEST, None), "/work/titan/data/tun.yaml");
    assert_eq!(resolve_config_path(MANIFEST, Some("my-tun.yaml")), "/work/titan/my-tun.yaml");
    assert_eq!(resolve_state_path(MANIFEST, None), "/work/titan/data/tun-state.yaml");
    assert_eq!(resolve_state_path(MANIFEST, Some("/tmp/s.yaml")), "/tmp/s.yaml");
    assert_eq!(default_proxy_config_path(MANIFEST), "/work/titan/data/config.yaml");
}

#[test]
fn default_paths_are_the_workspace_paths_of_the_defaults() {
    let m = "/work/titan/crates/cli";
    assert_eq!(titan::paths::default_config_path(m), titan::paths::resolve_workspace_str(m, "data/config.yaml"));
    assert_eq!(titan::paths::default_geoip_path(m), titan::paths::resolve_workspace_str(m, "data/geoip-apnic.raw"));
    assert_eq!(titan::paths::default_geosite_dir(m), titan::paths::resolve_workspace_str(m, "data/geosite"));
    assert_eq!(titan::paths::default_tun_config_path(m), titan::paths::resolve_workspace_str(m, "data/tun.yaml"));
    assert_eq!(titan::paths::default_tun_state_path(m), titan::paths::resolve_workspace_str(m, "data/tun-state.yaml"));
    assert_eq!(titan::paths::default_config_path(m), "/work/titan/data/config.yaml");
}
