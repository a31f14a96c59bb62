//! The plugin's configuration: its fields, their defaults, and the rules that
//! normalise and check it once it has been read.
//!
//! The fail-safe temperature is held as a value of type `T`, which the caller
//! chooses; the rules here never look inside it.
use crate::text::{
    eq_ignore_ascii_case, eq_ignore_ascii_case_spec, lemma_trim_fixed, lemma_trim_idempotent, str_eq,
    starts_with, trim, trim_end_char, trim_end_char_spec, trim_spec,
};
use core::time::Duration;
use vstd::prelude::*;

verus! {

/// Where and how to reach the TrueNAS API.
#[derive(Debug, Clone)]
pub struct TrueNasConfig {
    pub host: String,
    pub endpoint: String,
    pub username: String,
    pub api_key: String,
    pub api_key_file: String,
    pub tls: bool,
    pub tls_verify: bool,
    pub disk_names: Vec<String>,
}

/// How often to poll TrueNAS and how to behave when it cannot be reached.
#[derive(Debug, Clone)]
pub struct PollingConfig<T> {
    pub poll_interval_seconds: u64,
    pub connect_timeout_seconds: u64,
    pub stale_after_seconds: u64,
    pub failsafe_temperature_c: T,
}

/// The whole configuration.
#[derive(Debug, Clone)]
pub struct Config<T> {
    pub truenas: TrueNasConfig,
    pub polling: PollingConfig<T>,
}

/// A configuration that the rules refuse.
#[derive(Debug, Clone, Copy, PartialEq, Eq, Structural)]
pub enum ConfigError {
    /// `truenas.host` is empty.
    HostRequired,
    /// `truenas.endpoint` is neither `auto` nor a path.
    InvalidEndpoint,
    /// Neither `truenas.api_key` nor `truenas.api_key_file` gives a key.
    ApiKeyRequired,
    /// `polling.poll_interval_seconds` is zero.
    PollIntervalZero,
}

impl ConfigError {
    /// The text that reports the broken rule.
    pub fn message(&self) -> (text: &'static str)
        ensures
            text@ == match *self {
                ConfigError::HostRequired => "truenas.host is required"@,
                ConfigError::InvalidEndpoint => "truenas.endpoint must be \"auto\" or start with /"@,
                ConfigError::ApiKeyRequired => "truenas.api_key or truenas.api_key_file is required"@,
                ConfigError::PollIntervalZero => "polling.poll_interval_seconds must be at least 1"@,
            },
    {
        match self {
            ConfigError::HostRequired => "truenas.host is required",
            ConfigError::InvalidEndpoint => "truenas.endpoint must be \"auto\" or start with /",
            ConfigError::ApiKeyRequired => "truenas.api_key or truenas.api_key_file is required",
            ConfigError::PollIntervalZero => "polling.poll_interval_seconds must be at least 1",
        }
    }
}

/// The duration of `secs` whole seconds, as `Duration::from_secs` builds it.
pub uninterp spec fn duration_from_secs(secs: u64) -> Duration;

/// `Duration::from_secs` builds the duration of `secs` whole seconds; its
/// result is named by `duration_from_secs`.
pub assume_specification[ core::time::Duration::from_secs ](secs: u64) -> (d: Duration)
    ensures
        d == duration_from_secs(secs),
;

/// `Duration` is `Copy`, and its `clone` gives back the same duration.
pub assume_specification[ <core::time::Duration as Clone>::clone ](d: &Duration) -> (res: Duration)
    ensures
        res == *d,
;

/// `true`: TLS and certificate checks are on unless configured off.
pub fn default_true() -> (b: bool)
    ensures
        b,
{
    true
}

/// The endpoint that lets the plugin choose.
pub open spec fn auto_endpoint() -> Seq<char> {
    "auto"@
}

/// The JSON-RPC endpoint of current TrueNAS releases.
pub open spec fn current_api_endpoint() -> Seq<char> {
    "/api/current"@
}

/// The endpoint of the legacy TrueNAS WebSocket API.
pub open spec fn legacy_endpoint() -> Seq<char> {
    "/websocket"@
}

/// The default endpoint: `/api/current`, the JSON-RPC API of current releases.
pub fn default_endpoint() -> (e: String)
    ensures
        e@ == current_api_endpoint(),
{
    String::from_str("/api/current")
}

/// 300 seconds between polls (TrueNAS updates disk temperatures about every five minutes).
pub fn default_poll_interval_seconds() -> (s: u64)
    ensures
        s == 300,
{
    300
}

/// 15 seconds to connect.
pub fn default_connect_timeout_seconds() -> (s: u64)
    ensures
        s == 15,
{
    15
}

/// 900 seconds before the last good reading counts as stale.
pub fn default_stale_after_seconds() -> (s: u64)
    ensures
        s == 900,
{
    900
}

impl<T> PollingConfig<T> {
    /// The default polling settings with the given fail-safe temperature.
    pub fn defaults(failsafe_temperature_c: T) -> (p: Self)
        ensures
            p.poll_interval_seconds == 300,
            p.connect_timeout_seconds == 15,
            p.stale_after_seconds == 900,
            p.failsafe_temperature_c == failsafe_temperature_c,
    {
        PollingConfig {
            poll_interval_seconds: default_poll_interval_seconds(),
            connect_timeout_seconds: default_connect_timeout_seconds(),
            stale_after_seconds: default_stale_after_seconds(),
            failsafe_temperature_c,
        }
    }

    /// The time between polls.
    pub fn poll_interval(&self) -> (d: Duration)
        ensures
            d == duration_from_secs(self.poll_interval_seconds),
    {
        Duration::from_secs(self.poll_interval_seconds)
    }

    /// The time allowed for each network step.
    pub fn connect_timeout(&self) -> (d: Duration)
        ensures
            d == duration_from_secs(self.connect_timeout_seconds),
    {
        Duration::from_secs(self.connect_timeout_seconds)
    }

    /// The age after which the last good reading no longer counts.
    pub fn stale_after(&self) -> (d: Duration)
        ensures
            d == duration_from_secs(self.stale_after_seconds),
    {
        Duration::from_secs(self.stale_after_seconds)
    }
}

/// Whether the API key has to come from `api_key_file`: the configured key is
/// blank and a file is named.
pub open spec fn reads_api_key_file(api_key: Seq<char>, api_key_file: Seq<char>) -> bool {
    trim_spec(api_key).len() == 0 && api_key_file.len() > 0
}

/// The API key in force: the trimmed configured key, or where it is blank and
/// a file is named, the trimmed contents of that file (`file_contents`).
pub open spec fn effective_api_key(
    api_key: Seq<char>,
    api_key_file: Seq<char>,
    file_contents: Option<Seq<char>>,
) -> Seq<char> {
    if reads_api_key_file(api_key, api_key_file) {
        match file_contents {
            Some(c) => trim_spec(c),
            None => trim_spec(api_key),
        }
    } else {
        trim_spec(api_key)
    }
}

/// The endpoint after trimming, the default `/api/current` where it is blank.
pub open spec fn effective_endpoint(endpoint: Seq<char>) -> Seq<char> {
    if trim_spec(endpoint).len() == 0 {
        current_api_endpoint()
    } else {
        trim_spec(endpoint)
    }
}

/// Whether `endpoint` asks the plugin to choose (`auto` in any ASCII case).
pub open spec fn is_auto_endpoint(endpoint: Seq<char>) -> bool {
    eq_ignore_ascii_case_spec(endpoint, auto_endpoint())
}

/// The endpoint that the configuration keeps: `auto` for any spelling of it,
/// the two known API paths without trailing slashes, anything else as given.
pub open spec fn normalized_endpoint(endpoint: Seq<char>) -> Seq<char> {
    let stripped = trim_end_char_spec(endpoint, '/');
    if is_auto_endpoint(endpoint) {
        auto_endpoint()
    } else if stripped == current_api_endpoint() || stripped == legacy_endpoint() {
        stripped
    } else {
        endpoint
    }
}

/// The first rule that the configuration breaks, checked in this order: host,
/// endpoint, API key, poll interval. The login sends the API key alone, so
/// no username is needed.
pub open spec fn config_error(
    host: Seq<char>,
    endpoint: Seq<char>,
    api_key: Seq<char>,
    poll_interval_seconds: u64,
) -> Option<ConfigError> {
    if host.len() == 0 {
        Some(ConfigError::HostRequired)
    } else if !is_auto_endpoint(endpoint) && !(endpoint.len() > 0 && endpoint[0] == '/') {
        Some(ConfigError::InvalidEndpoint)
    } else if api_key.len() == 0 {
        Some(ConfigError::ApiKeyRequired)
    } else if poll_interval_seconds == 0 {
        Some(ConfigError::PollIntervalZero)
    } else {
        None
    }
}

/// The file that the API key has to be read from, where it has to: the
/// configured key is blank and `api_key_file` names a file.
pub fn api_key_file_to_read(truenas: &TrueNasConfig) -> (path: Option<String>)
    ensures
        match path {
            Some(p) => reads_api_key_file(truenas.api_key@, truenas.api_key_file@) && p@
                == truenas.api_key_file@,
            None => !reads_api_key_file(truenas.api_key@, truenas.api_key_file@),
        },
{
    let key = trim(truenas.api_key.as_str());
    if key.unicode_len() == 0 && truenas.api_key_file.unicode_len() > 0 {
        Some(truenas.api_key_file.clone())
    } else {
        None
    }
}

/// Normalises and checks a configuration that has been read.
///
/// `api_key_file_contents` holds what `api_key_file` contains where the key
/// has to come from it (see `api_key_file_to_read`), and is ignored otherwise.
/// The host, endpoint, username and key are trimmed, a blank endpoint becomes
/// `/api/current`, and the endpoint is normalised (any spelling of `auto` becomes `auto`); then the first rule broken, if any,
/// is reported.
pub fn finish_config<T>(config: Config<T>, api_key_file_contents: Option<String>) -> (res: Result<
    Config<T>,
    ConfigError,
>)
    ensures
        ({
            let t = config.truenas;
            let host = trim_spec(t.host@);
            let endpoint = effective_endpoint(t.endpoint@);
            let username = trim_spec(t.username@);
            let key = effective_api_key(
                t.api_key@,
                t.api_key_file@,
                match api_key_file_contents {
                    Some(c) => Some(c@),
                    None => None,
                },
            );
            let err = config_error(host, endpoint, key, config.polling.poll_interval_seconds);
            match res {
                Ok(c) => {
                    &&& err is None
                    &&& c.truenas.host@ == host
                    &&& c.truenas.endpoint@ == normalized_endpoint(endpoint)
                    &&& c.truenas.username@ == username
                    &&& c.truenas.api_key@ == key
                    &&& c.truenas.api_key_file == t.api_key_file
                    &&& c.truenas.tls == t.tls
                    &&& c.truenas.tls_verify == t.tls_verify
                    &&& c.truenas.disk_names == t.disk_names
                    &&& c.polling == config.polling
                },
                Err(e) => err == Some(e),
            }
        }),
{
    let Config { truenas, polling } = config;
    let TrueNasConfig { host, endpoint, username, api_key, api_key_file, tls, tls_verify, disk_names } =
        truenas;
    let host = trim(host.as_str());
    let endpoint = trim(endpoint.as_str());
    let username = trim(username.as_str());
    let mut api_key = trim(api_key.as_str());
    if api_key.unicode_len() == 0 && api_key_file.unicode_len() > 0 {
        match api_key_file_contents {
            Some(contents) => {
                api_key = trim(contents.as_str());
            },
            None => {},
        }
    }
    if host.unicode_len() == 0 {
        return Err(ConfigError::HostRequired);
    }
    let endpoint = if endpoint.unicode_len() == 0 {
        default_endpoint()
    } else {
        endpoint
    };
    let stripped = trim_end_char(endpoint.as_str(), '/');
    let is_auto = eq_ignore_ascii_case(endpoint.as_str(), "auto");
    if !is_auto && !starts_with(endpoint.as_str(), "/") {
        proof {
            reveal_strlit("/");
        }
        return Err(ConfigError::InvalidEndpoint);
    }
    proof {
        reveal_strlit("/");
        if !is_auto {
            assert(endpoint@.subrange(0, 1)[0] == endpoint@[0]);
        }
        assert(is_auto || (endpoint@.len() > 0 && endpoint@[0] == '/'));
        assert(endpoint@ == effective_endpoint(config.truenas.endpoint@));
        assert(api_key@ == effective_api_key(
            config.truenas.api_key@,
            config.truenas.api_key_file@,
            match api_key_file_contents {
                Some(c) => Some(c@),
                None => None,
            },
        ));
    }
    let final_endpoint = if is_auto {
        String::from_str("auto")
    } else if str_eq(stripped.as_str(), "/api/current") || str_eq(stripped.as_str(), "/websocket") {
        stripped.clone()
    } else {
        endpoint
    };
    if api_key.unicode_len() == 0 {
        return Err(ConfigError::ApiKeyRequired);
    }
    if polling.poll_interval_seconds == 0 {
        return Err(ConfigError::PollIntervalZero);
    }
    Ok(
        Config {
            truenas: TrueNasConfig {
                host,
                endpoint: final_endpoint,
                username,
                api_key,
                api_key_file,
                tls,
                tls_verify,
                disk_names,
            },
            polling,
        },
    )
}

proof fn lemma_literal_endpoints()
    ensures
        trim_spec(auto_endpoint()) == auto_endpoint(),
        trim_spec(current_api_endpoint()) == current_api_endpoint(),
        trim_spec(legacy_endpoint()) == legacy_endpoint(),
        trim_end_char_spec(auto_endpoint(), '/') == auto_endpoint(),
        trim_end_char_spec(current_api_endpoint(), '/') == current_api_endpoint(),
        trim_end_char_spec(legacy_endpoint(), '/') == legacy_endpoint(),
        is_auto_endpoint(auto_endpoint()),
        !is_auto_endpoint(current_api_endpoint()),
        !is_auto_endpoint(legacy_endpoint()),
        auto_endpoint() != current_api_endpoint(),
        auto_endpoint() != legacy_endpoint(),
        current_api_endpoint()[0] == '/',
        legacy_endpoint()[0] == '/',
        auto_endpoint().len() > 0,
        current_api_endpoint().len() > 0,
        legacy_endpoint().len() > 0,
{
    reveal_strlit("auto");
    reveal_strlit("/api/current");
    reveal_strlit("/websocket");
    lemma_trim_fixed(auto_endpoint());
    lemma_trim_fixed(current_api_endpoint());
    lemma_trim_fixed(legacy_endpoint());
}

/// Normalisation is stable: where the rules accept a configuration, the
/// normalised host, endpoint, username and key are accepted again and come
/// back unchanged (the key file is then not read again), and the endpoint
/// kept is `auto` or a path.
pub proof fn lemma_normalization_stable(
    host: Seq<char>,
    endpoint: Seq<char>,
    username: Seq<char>,
    api_key: Seq<char>,
    api_key_file: Seq<char>,
    file_contents: Option<Seq<char>>,
    poll_interval_seconds: u64,
)
    requires
        config_error(
            trim_spec(host),
            effective_endpoint(endpoint),
            effective_api_key(api_key, api_key_file, file_contents),
            poll_interval_seconds,
        ) is None,
    ensures
        ({
            let h = trim_spec(host);
            let e = normalized_endpoint(effective_endpoint(endpoint));
            let u = trim_spec(username);
            let k = effective_api_key(api_key, api_key_file, file_contents);
            &&& e == auto_endpoint() || (e.len() > 0 && e[0] == '/')
            &&& !reads_api_key_file(k, api_key_file)
            &&& trim_spec(h) == h
            &&& normalized_endpoint(effective_endpoint(e)) == e
            &&& trim_spec(u) == u
            &&& effective_api_key(k, api_key_file, None) == k
            &&& config_error(trim_spec(h), effective_endpoint(e), effective_api_key(k, api_key_file, None), poll_interval_seconds) is None
        }),
{
    let ep = effective_endpoint(endpoint);
    let e = normalized_endpoint(ep);
    let stripped = trim_end_char_spec(ep, '/');
    lemma_trim_idempotent(host);
    lemma_trim_idempotent(username);
    lemma_trim_idempotent(endpoint);
    lemma_trim_idempotent(api_key);
    lemma_literal_endpoints();
    let k = effective_api_key(api_key, api_key_file, file_contents);
    match file_contents {
        Some(c) => lemma_trim_idempotent(c),
        None => {},
    }
    assert(trim_spec(k) == k);
    if is_auto_endpoint(ep) {
        assert(e == auto_endpoint());
        assert(effective_endpoint(e) == e);
        assert(normalized_endpoint(e) == e);
    } else if stripped == current_api_endpoint() {
        assert(e == stripped);
        assert(effective_endpoint(e) == e);
        assert(normalized_endpoint(e) == e);
    } else if stripped == legacy_endpoint() {
        assert(e == stripped);
        assert(effective_endpoint(e) == e);
        assert(normalized_endpoint(e) == e);
    } else {
        assert(e == ep);
        assert(trim_spec(ep) == ep);
        assert(effective_endpoint(e) == e);
    }
}

} // verus!
