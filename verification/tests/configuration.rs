use coolercontrol_truenas_bridge::config::{
    api_key_file_to_read, default_connect_timeout_seconds, default_endpoint, default_poll_interval_seconds,
    default_stale_after_seconds, default_true, finish_config, Config, ConfigError, PollingConfig, TrueNasConfig,
};
use std::time::Duration;

fn raw(host: &str, endpoint: &str, username: &str, api_key: &str) -> Config<f64> {
    Config {
        truenas: TrueNasConfig {
            host: host.to_string(),
            endpoint: endpoint.to_string(),
            username: username.to_string(),
            api_key: api_key.to_string(),
            api_key_file: String::new(),
            tls: true,
            tls_verify: true,
            disk_names: vec![],
        },
        polling: PollingConfig::defaults(55.0),
    }
}

#[test]
fn defaults() {
    assert!(default_true());
    assert_eq!(default_endpoint(), "/api/current");
    assert_eq!(default_poll_interval_seconds(), 300);
    assert_eq!(default_connect_timeout_seconds(), 15);
    assert_eq!(default_stale_after_seconds(), 900);
    let p = PollingConfig::defaults(55.0);
    assert_eq!(p.poll_interval(), Duration::from_secs(300));
    assert_eq!(p.connect_timeout(), Duration::from_secs(15));
    assert_eq!(p.stale_after(), Duration::from_secs(900));
    assert_eq!(p.failsafe_temperature_c, 55.0);
}

#[test]
fn trims_and_normalizes() {
    let c = finish_config(raw("  truenas.local \n", " /api/current// ", " cc ", "\tkey\u{a0}"), None).unwrap();
    assert_eq!(c.truenas.host, "truenas.local");
    assert_eq!(c.truenas.endpoint, "/api/current");
    assert_eq!(c.truenas.username, "cc");
    assert_eq!(c.truenas.api_key, "key");
    let c = finish_config(raw("nas", "AuTo", "", "key"), None).unwrap();
    assert_eq!(c.truenas.endpoint, "auto");
    let c = finish_config(raw("nas", " /websocket// ", "", "key"), None).unwrap();
    assert_eq!(c.truenas.endpoint, "/websocket");
    let c = finish_config(raw("nas", "   ", "cc", "key"), None).unwrap();
    assert_eq!(c.truenas.endpoint, "/api/current");
    let c = finish_config(raw("nas", "", "", "key"), None).unwrap();
    assert_eq!(c.truenas.endpoint, "/api/current");
    assert_eq!(c.truenas.username, "");
    let c = finish_config(raw("nas", "/websocket/", "", "key"), None).unwrap();
    assert_eq!(c.truenas.endpoint, "/websocket");
    let c = finish_config(raw("nas", "/custom/", "", "key"), None).unwrap();
    assert_eq!(c.truenas.endpoint, "/custom/");
}

#[test]
fn reports_each_broken_rule() {
    assert_eq!(finish_config(raw("  ", "auto", "u", "key"), None).err(), Some(ConfigError::HostRequired));
    assert_eq!(finish_config(raw("nas", "api/current", "u", "key"), None).err(), Some(ConfigError::InvalidEndpoint));
    assert_eq!(finish_config(raw("nas", "auto", "u", "  "), None).err(), Some(ConfigError::ApiKeyRequired));
    assert!(finish_config(raw("nas", "/api/current/", " ", "key"), None).is_ok());
    let mut c = raw("nas", "auto", "", "key");
    c.polling.poll_interval_seconds = 0;
    assert_eq!(finish_config(c, None).err(), Some(ConfigError::PollIntervalZero));
    assert_eq!(finish_config(raw("", "bad", "", ""), None).err(), Some(ConfigError::HostRequired));
}

#[test]
fn reads_api_key_from_file_only_when_needed() {
    let mut c = raw("nas", "auto", "", "  ");
    c.truenas.api_key_file = "/etc/key".to_string();
    assert_eq!(api_key_file_to_read(&c.truenas), Some("/etc/key".to_string()));
    let done = finish_config(c.clone(), Some("secret\n".to_string())).unwrap();
    assert_eq!(done.truenas.api_key, "secret");
    assert_eq!(done.truenas.api_key_file, "/etc/key");
    assert_eq!(finish_config(c.clone(), Some(" \n".to_string())).err(), Some(ConfigError::ApiKeyRequired));
    c.truenas.api_key = "inline".to_string();
    assert_eq!(api_key_file_to_read(&c.truenas), None);
    let done = finish_config(c, Some("ignored".to_string())).unwrap();
    assert_eq!(done.truenas.api_key, "inline");
}

#[test]
fn finished_configuration_is_stable() {
    for endpoint in ["AUTO", " /api/current/ ", "/websocket//", "/custom/", ""] {
        let mut c = raw("  nas\t", endpoint, " cc ", " key ");
        c.truenas.api_key_file = "/etc/key".to_string();
        let once = finish_config(c, None).unwrap();
        let twice = finish_config(once.clone(), None).unwrap();
        assert_eq!(twice.truenas.host, once.truenas.host);
        assert_eq!(twice.truenas.endpoint, once.truenas.endpoint);
        assert_eq!(twice.truenas.username, once.truenas.username);
        assert_eq!(twice.truenas.api_key, once.truenas.api_key);
        assert_eq!(api_key_file_to_read(&once.truenas), None);
    }
}

#[test]
fn loads_readme_example() {
    let c = Config {
        truenas: TrueNasConfig {
            host: "truenas.local".to_string(),
            endpoint: "/api/current".to_string(),
            username: String::new(),
            api_key: String::new(),
            api_key_file: "/var/lib/coolercontrol/plugins/coolercontrol-truenas-bridge/api.key".to_string(),
            tls: true,
            tls_verify: false,
            disk_names: vec![],
        },
        polling: PollingConfig::defaults(55.0),
    };
    assert_eq!(
        api_key_file_to_read(&c.truenas),
        Some("/var/lib/coolercontrol/plugins/coolercontrol-truenas-bridge/api.key".to_string())
    );
    let done = finish_config(c, Some("k\n".to_string())).unwrap();
    assert_eq!(done.truenas.api_key, "k");
    assert_eq!(done.truenas.endpoint, "/api/current");
    assert!(!done.truenas.tls_verify);
    assert_eq!(done.polling.poll_interval_seconds, 300);
}

#[test]
fn config_error_texts() {
    assert_eq!(ConfigError::HostRequired.message(), "truenas.host is required");
    assert_eq!(ConfigError::InvalidEndpoint.message(), "truenas.endpoint must be \"auto\" or start with /");
    assert_eq!(ConfigError::ApiKeyRequired.message(), "truenas.api_key or truenas.api_key_file is required");
    assert_eq!(ConfigError::PollIntervalZero.message(), "polling.poll_interval_seconds must be at least 1");
}
