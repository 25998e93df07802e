use firehol::config::{
    default_bogons_ipv4_url, default_bogons_ipv6_url, default_interval, default_whitelist, load_config,
    read_settings, Config, ConfigError, ConfigSource, Interval, Setting, Settings,
};

fn refusal(source: ConfigSource) -> ConfigError {
    match load_config(source) {
        Ok(config) => panic!("accepted {:?}", config),
        Err(error) => error,
    }
}

#[test]
fn default_interval_is_one_hour() {
    assert_eq!(default_interval(), Interval { secs: 3600, nanos: 0 });
}

#[test]
fn default_configuration() {
    let config = Config::default();
    assert_eq!(config.interval, Interval { secs: 3600, nanos: 0 });
    assert_eq!(config.path, ".");
    assert_eq!(config.l1_url, "https://iplists.firehol.org/files/firehol_level1.netset");
    assert_eq!(config.l2_url, "https://iplists.firehol.org/files/firehol_level2.netset");
    assert_eq!(config.bogons_ipv4_url, "https://www.team-cymru.org/Services/Bogons/fullbogons-ipv4.txt");
    assert_eq!(config.bogons_ipv6_url, "https://www.team-cymru.org/Services/Bogons/fullbogons-ipv6.txt");
    assert_eq!(config.bogons_ipv4_url, default_bogons_ipv4_url());
    assert_eq!(config.bogons_ipv6_url, default_bogons_ipv6_url());
    assert_eq!(config.whitelist, vec!["10.0.0.0/8", "172.16.0.0/12", "192.168.0.0/16", "fc00::/7"]);
    assert_eq!(config.whitelist, default_whitelist());
    assert!(!config.log_blocked);
}

fn settings() -> Settings {
    Settings {
        interval: Some(Interval { secs: 60, nanos: 0 }),
        path: Some("data".to_owned()),
        l1_url: Some("https://example.org/1".to_owned()),
        l2_url: Some("https://example.org/2".to_owned()),
        bogons_ipv4_url: None,
        bogons_ipv6_url: None,
        whitelist: None,
        log_blocked: None,
    }
}

#[test]
fn optional_settings_have_defaults() {
    let config = load_config(ConfigSource::Parsed(settings())).unwrap();
    assert_eq!(config.interval, Interval { secs: 60, nanos: 0 });
    assert_eq!(config.path, "data");
    assert_eq!(config.l1_url, "https://example.org/1");
    assert_eq!(config.l2_url, "https://example.org/2");
    assert_eq!(config.bogons_ipv4_url, default_bogons_ipv4_url());
    assert_eq!(config.bogons_ipv6_url, default_bogons_ipv6_url());
    assert_eq!(config.whitelist, default_whitelist());
    assert!(!config.log_blocked);
}

#[test]
fn settings_are_taken_over() {
    let mut settings = settings();
    settings.bogons_ipv4_url = Some("https://example.org/4".to_owned());
    settings.bogons_ipv6_url = Some("https://example.org/6".to_owned());
    settings.whitelist = Some(vec!["192.0.2.0/24".to_owned()]);
    settings.log_blocked = Some(true);
    let config = load_config(ConfigSource::Parsed(settings)).unwrap();
    assert_eq!(config.bogons_ipv4_url, "https://example.org/4");
    assert_eq!(config.bogons_ipv6_url, "https://example.org/6");
    assert_eq!(config.whitelist, vec!["192.0.2.0/24"]);
    assert!(config.log_blocked);
}

#[test]
fn required_settings_must_be_given() {
    let absent = |change: fn(&mut Settings)| {
        let mut settings = settings();
        change(&mut settings);
        assert!(read_settings(settings.clone()).is_err());
        refusal(ConfigSource::Parsed(settings))
    };
    assert_eq!(absent(|s| s.interval = None), ConfigError::MissingSetting(Setting::Interval));
    assert_eq!(absent(|s| s.path = None), ConfigError::MissingSetting(Setting::Path));
    assert_eq!(absent(|s| s.l1_url = None), ConfigError::MissingSetting(Setting::L1Url));
    assert_eq!(absent(|s| s.l2_url = None), ConfigError::MissingSetting(Setting::L2Url));
    assert_eq!(
        absent(|s| {
            s.l2_url = None;
            s.path = None;
        }),
        ConfigError::MissingSetting(Setting::Path),
    );
    assert_eq!(Setting::L1Url.name(), "l1_url");
}

#[test]
fn configuration_file_must_be_there_and_readable() {
    assert_eq!(refusal(ConfigSource::Missing), ConfigError::Missing);
    assert_eq!(refusal(ConfigSource::Unreadable), ConfigError::Unreadable);
    assert_eq!(refusal(ConfigSource::Malformed), ConfigError::Malformed);
}

fn with_whitelist(whitelist: &[&str]) -> ConfigSource {
    let mut settings = settings();
    settings.whitelist = Some(whitelist.iter().map(|entry| entry.to_string()).collect());
    ConfigSource::Parsed(settings)
}

#[test]
fn zero_interval_is_refused() {
    let mut settings = settings();
    settings.interval = Some(Interval { secs: 0, nanos: 0 });
    settings.whitelist = Some(vec!["nonsense".to_owned()]);
    assert_eq!(refusal(ConfigSource::Parsed(settings)), ConfigError::ZeroInterval);
}

#[test]
fn shortest_interval_is_accepted() {
    let mut settings = settings();
    settings.interval = Some(Interval { secs: 0, nanos: 1 });
    assert!(load_config(ConfigSource::Parsed(settings)).is_ok());
}

#[test]
fn first_invalid_whitelist_entry_is_named() {
    assert_eq!(
        refusal(with_whitelist(&["10.0.0.0/8", "10.0.0.1", "label"])),
        ConfigError::InvalidWhitelist("10.0.0.1".to_owned()),
    );
}

#[test]
fn prefix_length_must_fit_the_family() {
    assert_eq!(
        refusal(with_whitelist(&["10.0.0.0/33"])),
        ConfigError::InvalidWhitelist("10.0.0.0/33".to_owned()),
    );
}

#[test]
fn whitelist_may_be_empty() {
    assert!(load_config(with_whitelist(&[])).unwrap().whitelist.is_empty());
}
