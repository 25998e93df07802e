//! The configuration of the service: its defaults and when it is accepted.

use vstd::prelude::*;

use crate::outside::{parse_ip_net, parsed_network};
use crate::text::texts;

verus! {

/// A span of time: whole seconds and the nanoseconds beyond them.
#[derive(Clone, Copy, Debug, PartialEq, Eq, Structural)]
pub struct Interval {
    pub secs: u64,
    pub nanos: u32,
}

impl Interval {
    /// The span in nanoseconds.
    pub open spec fn total_nanos(self) -> int {
        self.secs * 1_000_000_000 + self.nanos
    }

    /// Whether no time passes.
    pub fn is_zero(&self) -> (zero: bool)
        ensures
            zero == (self.total_nanos() == 0),
    {
        self.secs == 0 && self.nanos == 0
    }
}

/// What the service is told to do.
#[derive(Clone, Debug)]
pub struct Config {
    /// The time between two update cycles.
    pub interval: Interval,
    /// Where the fetched data is kept.
    pub path: String,
    pub l1_url: String,
    pub l2_url: String,
    pub bogons_ipv4_url: String,
    pub bogons_ipv6_url: String,
    /// The networks that are never blocked, in CIDR notation.
    pub whitelist: Vec<String>,
    /// Whether a blocked packet is logged.
    pub log_blocked: bool,
}

pub const DEFAULT_L1_URL: &'static str = "https://iplists.firehol.org/files/firehol_level1.netset";

pub const DEFAULT_L2_URL: &'static str = "https://iplists.firehol.org/files/firehol_level2.netset";

pub const DEFAULT_BOGONS_IPV4_URL: &'static str = "https://www.team-cymru.org/Services/Bogons/fullbogons-ipv4.txt";

pub const DEFAULT_BOGONS_IPV6_URL: &'static str = "https://www.team-cymru.org/Services/Bogons/fullbogons-ipv6.txt";

/// The networks of the default whitelist: the private ranges of both families.
pub open spec fn default_whitelist_texts() -> Seq<Seq<char>> {
    seq!["10.0.0.0/8"@, "172.16.0.0/12"@, "192.168.0.0/16"@, "fc00::/7"@]
}

impl Default for Config {
    fn default() -> (config: Self)
        ensures
            config.interval == (Interval { secs: 3600, nanos: 0 }),
            config.path@ == "."@,
            config.l1_url@ == DEFAULT_L1_URL@,
            config.l2_url@ == DEFAULT_L2_URL@,
            config.bogons_ipv4_url@ == DEFAULT_BOGONS_IPV4_URL@,
            config.bogons_ipv6_url@ == DEFAULT_BOGONS_IPV6_URL@,
            texts(config.whitelist@) == default_whitelist_texts(),
            !config.log_blocked,
    {
        Config {
            interval: default_interval(),
            path: ".".to_owned(),
            l1_url: DEFAULT_L1_URL.to_owned(),
            l2_url: DEFAULT_L2_URL.to_owned(),
            bogons_ipv4_url: default_bogons_ipv4_url(),
            bogons_ipv6_url: default_bogons_ipv6_url(),
            whitelist: default_whitelist(),
            log_blocked: false,
        }
    }
}

/// One hour.
pub fn default_interval() -> (interval: Interval)
    ensures
        interval == (Interval { secs: 3600, nanos: 0 }),
{
    Interval { secs: 60 * 60, nanos: 0 }
}

pub fn default_bogons_ipv4_url() -> (url: String)
    ensures
        url@ == DEFAULT_BOGONS_IPV4_URL@,
{
    DEFAULT_BOGONS_IPV4_URL.to_owned()
}

pub fn default_bogons_ipv6_url() -> (url: String)
    ensures
        url@ == DEFAULT_BOGONS_IPV6_URL@,
{
    DEFAULT_BOGONS_IPV6_URL.to_owned()
}

pub fn default_whitelist() -> (whitelist: Vec<String>)
    ensures
        texts(whitelist@) == default_whitelist_texts(),
{
    let whitelist: Vec<String> = vec![
        "10.0.0.0/8".to_owned(),
        "172.16.0.0/12".to_owned(),
        "192.168.0.0/16".to_owned(),
        "fc00::/7".to_owned(),
    ];
    assert(texts(whitelist@) =~= default_whitelist_texts());
    whitelist
}

/// The settings that a configuration file holds. One that it does not mention is absent.
#[derive(Clone, Debug)]
pub struct Settings {
    pub interval: Option<Interval>,
    pub path: Option<String>,
    pub l1_url: Option<String>,
    pub l2_url: Option<String>,
    pub bogons_ipv4_url: Option<String>,
    pub bogons_ipv6_url: Option<String>,
    pub whitelist: Option<Vec<String>>,
    pub log_blocked: Option<bool>,
}

/// A setting that the file must have.
#[derive(Clone, Copy, Debug, PartialEq, Eq, Structural)]
pub enum Setting {
    Interval,
    Path,
    L1Url,
    L2Url,
}

impl Setting {
    /// What the setting is called in the file.
    pub fn name(self) -> (name: &'static str)
        ensures
            name@ == match self {
                Setting::Interval => "interval"@,
                Setting::Path => "path"@,
                Setting::L1Url => "l1_url"@,
                Setting::L2Url => "l2_url"@,
            },
    {
        match self {
            Setting::Interval => "interval",
            Setting::Path => "path",
            Setting::L1Url => "l1_url",
            Setting::L2Url => "l2_url",
        }
    }
}

/// The first setting, in the order of the configuration, that the file must have and has not.
pub open spec fn first_absent(settings: Settings) -> Option<Setting> {
    if settings.interval is None {
        Some(Setting::Interval)
    } else if settings.path is None {
        Some(Setting::Path)
    } else if settings.l1_url is None {
        Some(Setting::L1Url)
    } else if settings.l2_url is None {
        Some(Setting::L2Url)
    } else {
        None
    }
}

/// A text that is set, or else its default.
pub open spec fn set_or(text: Option<String>, default: Seq<char>) -> Seq<char> {
    match text {
        Some(text) => text@,
        None => default,
    }
}

/// The configuration that complete settings make: what they hold, and the defaults for the rest.
pub open spec fn is_config(settings: Settings, config: Config) -> bool {
    &&& settings.interval == Some(config.interval)
    &&& settings.path == Some(config.path)
    &&& settings.l1_url == Some(config.l1_url)
    &&& settings.l2_url == Some(config.l2_url)
    &&& config.bogons_ipv4_url@ == set_or(settings.bogons_ipv4_url, DEFAULT_BOGONS_IPV4_URL@)
    &&& config.bogons_ipv6_url@ == set_or(settings.bogons_ipv6_url, DEFAULT_BOGONS_IPV6_URL@)
    &&& match settings.whitelist {
        Some(whitelist) => config.whitelist == whitelist,
        None => texts(config.whitelist@) == default_whitelist_texts(),
    }
    &&& config.log_blocked == match settings.log_blocked {
        Some(log_blocked) => log_blocked,
        None => false,
    }
}

/// The configuration that settings make. One that the file must have and has not is handed back,
/// and any other that is absent gets its default.
pub fn read_settings(settings: Settings) -> (result: Result<Config, Setting>)
    ensures
        match first_absent(settings) {
            Some(setting) => result == Err::<Config, Setting>(setting),
            None => result matches Ok(config) && is_config(settings, config),
        },
{
    let interval: Interval = match settings.interval {
        Some(interval) => interval,
        None => return Err(Setting::Interval),
    };
    let path: String = match settings.path {
        Some(path) => path,
        None => return Err(Setting::Path),
    };
    let l1_url: String = match settings.l1_url {
        Some(url) => url,
        None => return Err(Setting::L1Url),
    };
    let l2_url: String = match settings.l2_url {
        Some(url) => url,
        None => return Err(Setting::L2Url),
    };
    Ok(
        Config {
            interval,
            path,
            l1_url,
            l2_url,
            bogons_ipv4_url: match settings.bogons_ipv4_url {
                Some(url) => url,
                None => default_bogons_ipv4_url(),
            },
            bogons_ipv6_url: match settings.bogons_ipv6_url {
                Some(url) => url,
                None => default_bogons_ipv6_url(),
            },
            whitelist: match settings.whitelist {
                Some(whitelist) => whitelist,
                None => default_whitelist(),
            },
            log_blocked: match settings.log_blocked {
                Some(log_blocked) => log_blocked,
                None => false,
            },
        },
    )
}

/// What came of reading the configuration file.
#[derive(Clone, Debug)]
pub enum ConfigSource {
    /// There is no such file.
    Missing,
    /// The file could not be read.
    Unreadable,
    /// The file is no valid configuration.
    Malformed,
    /// The file holds these settings.
    Parsed(Settings),
}

/// Why a configuration is refused.
#[derive(Clone, Debug, PartialEq, Eq)]
pub enum ConfigError {
    Missing,
    Unreadable,
    Malformed,
    /// The setting must be there.
    MissingSetting(Setting),
    /// The interval must be greater than zero.
    ZeroInterval,
    /// An entry of the whitelist is not a network.
    InvalidWhitelist(String),
}

/// The entry is a network in CIDR notation.
pub open spec fn is_network(entry: String) -> bool {
    parsed_network(entry@) is Some
}

/// Every entry of the whitelist is a network in CIDR notation.
pub open spec fn whitelist_valid(whitelist: Seq<String>) -> bool {
    forall|i: int| 0 <= i < whitelist.len() ==> is_network(#[trigger] whitelist[i])
}

/// The entry at `i` is the first that is not a network.
pub open spec fn first_invalid(whitelist: Seq<String>, i: int) -> bool {
    &&& 0 <= i < whitelist.len()
    &&& !is_network(whitelist[i])
    &&& whitelist_valid(whitelist.take(i))
}

/// What becomes of a configuration: its interval must not be zero, and its whitelist must hold
/// networks in CIDR notation only.
pub open spec fn checked(config: Config, result: Result<Config, ConfigError>) -> bool {
    if config.interval.total_nanos() == 0 {
        result == Err::<Config, ConfigError>(ConfigError::ZeroInterval)
    } else if whitelist_valid(config.whitelist@) {
        result == Ok::<Config, ConfigError>(config)
    } else {
        exists|i: int| #[trigger]
            first_invalid(config.whitelist@, i) && result == Err::<Config, ConfigError>(
                ConfigError::InvalidWhitelist(config.whitelist@[i]),
            )
    }
}

/// Hands a configuration on unchanged if its interval and its whitelist are in order.
fn check(config: Config) -> (result: Result<Config, ConfigError>)
    ensures
        checked(config, result),
{
    if config.interval.is_zero() {
        return Err(ConfigError::ZeroInterval);
    }
    let mut i: usize = 0;
    while i < config.whitelist.len()
        invariant
            i <= config.whitelist@.len(),
            whitelist_valid(config.whitelist@.take(i as int)),
            config.interval.total_nanos() != 0,
        decreases config.whitelist@.len() - i,
    {
        if parse_ip_net(config.whitelist[i].as_str()).is_none() {
            proof {
                assert(first_invalid(config.whitelist@, i as int));
                assert(!is_network(config.whitelist@[i as int]));
            }
            return Err(ConfigError::InvalidWhitelist(config.whitelist[i].clone()));
        }
        assert(config.whitelist@.take(i + 1) == config.whitelist@.take(i as int).push(config.whitelist@[i as int]));
        i += 1;
    }
    assert(config.whitelist@.take(i as int) == config.whitelist@);
    Ok(config)
}

/// The configuration in a file: it must have all settings that it must have, an interval that is
/// not zero, and a whitelist of networks in CIDR notation.
pub fn load_config(source: ConfigSource) -> (result: Result<Config, ConfigError>)
    ensures
        match source {
            ConfigSource::Missing => result == Err::<Config, ConfigError>(ConfigError::Missing),
            ConfigSource::Unreadable => result == Err::<Config, ConfigError>(ConfigError::Unreadable),
            ConfigSource::Malformed => result == Err::<Config, ConfigError>(ConfigError::Malformed),
            ConfigSource::Parsed(settings) => match first_absent(settings) {
                Some(setting) => result == Err::<Config, ConfigError>(ConfigError::MissingSetting(setting)),
                None => exists|config: Config| #[trigger] is_config(settings, config) && checked(config, result),
            },
        },
{
    let settings: Settings = match source {
        ConfigSource::Missing => return Err(ConfigError::Missing),
        ConfigSource::Unreadable => return Err(ConfigError::Unreadable),
        ConfigSource::Malformed => return Err(ConfigError::Malformed),
        ConfigSource::Parsed(settings) => settings,
    };
    match read_settings(settings) {
        Ok(config) => check(config),
        Err(setting) => Err(ConfigError::MissingSetting(setting)),
    }
}

/// The configuration has what the settings have, each in its own place; what they do not mention
/// has its default.
pub proof fn law_settings_are_kept(settings: Settings, config: Config)
    requires
        is_config(settings, config),
    ensures
        settings.interval == Some(config.interval),
        settings.path == Some(config.path),
        settings.l1_url == Some(config.l1_url),
        settings.l2_url == Some(config.l2_url),
        config.bogons_ipv4_url@ == match settings.bogons_ipv4_url {
            Some(url) => url@,
            None => "https://www.team-cymru.org/Services/Bogons/fullbogons-ipv4.txt"@,
        },
        config.bogons_ipv6_url@ == match settings.bogons_ipv6_url {
            Some(url) => url@,
            None => "https://www.team-cymru.org/Services/Bogons/fullbogons-ipv6.txt"@,
        },
        settings.whitelist matches Some(whitelist) ==> config.whitelist == whitelist,
        settings.whitelist is None ==> {
            &&& config.whitelist@.len() == 4
            &&& config.whitelist@[0]@ == "10.0.0.0/8"@
            &&& config.whitelist@[1]@ == "172.16.0.0/12"@
            &&& config.whitelist@[2]@ == "192.168.0.0/16"@
            &&& config.whitelist@[3]@ == "fc00::/7"@
        },
        config.log_blocked <==> settings.log_blocked == Some(true),
{
    if settings.whitelist is None {
        let list = texts(config.whitelist@);
        assert(list.len() == config.whitelist@.len());
        assert(list[0] == config.whitelist@[0]@ && list[1] == config.whitelist@[1]@);
        assert(list[2] == config.whitelist@[2]@ && list[3] == config.whitelist@[3]@);
    }
}

/// The interval, the path and the addresses of the first two lists must be there, and the first of
/// them that is not is reported.
pub proof fn law_absent_setting_is_reported(settings: Settings)
    ensures
        settings.interval is None ==> first_absent(settings) == Some(Setting::Interval),
        settings.interval is Some && settings.path is None ==> first_absent(settings) == Some(Setting::Path),
        settings.interval is Some && settings.path is Some && settings.l1_url is None ==> first_absent(settings) == Some(
            Setting::L1Url,
        ),
        settings.interval is Some && settings.path is Some && settings.l1_url is Some && settings.l2_url is None
            ==> first_absent(settings) == Some(Setting::L2Url),
        settings.interval is Some && settings.path is Some && settings.l1_url is Some && settings.l2_url is Some
            ==> first_absent(settings) is None,
{
}

/// A configuration is accepted, and then unchanged, exactly if some time passes between two cycles
/// and every entry of the whitelist, wherever it stands, is a network. Else the interval is
/// reported, or the first entry that is no network.
pub proof fn law_every_entry_is_checked(config: Config, result: Result<Config, ConfigError>)
    requires
        checked(config, result),
    ensures
        ({
            let passes = config.interval.secs > 0 || config.interval.nanos > 0;
            let networks = forall|i: int|
                0 <= i < config.whitelist@.len() ==> parsed_network((#[trigger] config.whitelist@[i])@) is Some;
            &&& passes && networks ==> result == Ok::<Config, ConfigError>(config)
            &&& !passes ==> result == Err::<Config, ConfigError>(ConfigError::ZeroInterval)
            &&& passes && !networks ==> exists|i: int|
                0 <= i < config.whitelist@.len() && result == Err::<Config, ConfigError>(
                    ConfigError::InvalidWhitelist(#[trigger] config.whitelist@[i]),
                ) && parsed_network(config.whitelist@[i]@) is None && forall|k: int|
                    0 <= k < i ==> parsed_network((#[trigger] config.whitelist@[k])@) is Some
        }),
{
    let entries = config.whitelist@;
    assert forall|i: int| 0 <= i < entries.len() implies (is_network(#[trigger] entries[i]) <==> parsed_network(entries[i]@) is Some) by {}
    if config.interval.total_nanos() != 0 && !whitelist_valid(entries) {
        let i = choose|i: int| #[trigger]
            first_invalid(entries, i) && result == Err::<Config, ConfigError>(ConfigError::InvalidWhitelist(entries[i]));
        let front = entries.take(i);
        assert forall|k: int| 0 <= k < i implies parsed_network((#[trigger] entries[k])@) is Some by {
            assert(is_network(front[k]));
        }
        assert(parsed_network(entries[i]@) is None);
    }
}

} // verus!
