//! The TrueNAS WebSocket API client: the URL it connects to, the requests it
//! sends, the decisions it takes on each reply, and the disk temperatures it
//! reads out of the `disk.temperatures` result.
//!
//! The sending and receiving stand outside the library: they hand each frame
//! and each decoded reply to the functions here and act on what they return.
use crate::config::TrueNasConfig;
use crate::json::{first_field_index, find_field, is_first_field, json_as_str, json_get, json_get_str, JsonValue};
use crate::temps::TempMap;
use crate::text::{
    concatenate, contains_char, contains_seq, contains_str, starts_with, str_eq, strip_prefix, trim_end_char,
    trim_end_char_spec,
};
use core::time::Duration;
use vstd::prelude::*;
use vstd::utf8::{decode_utf8, valid_utf8};

verus! {

/// `scheme://host_or_path`, followed by `endpoint` where `host_or_path` holds no `/`.
pub open spec fn url_with_default_endpoint_spec(
    scheme: Seq<char>,
    host_or_path: Seq<char>,
    endpoint: Seq<char>,
) -> Seq<char> {
    if host_or_path.contains('/') {
        scheme + "://"@ + host_or_path
    } else {
        scheme + "://"@ + host_or_path + endpoint
    }
}

/// The WebSocket URL for the configured host: a `ws://` or `wss://` URL as
/// given; an `https://` or `http://` URL turned into `wss://` or `ws://`;
/// a bare host prefixed by `wss://` with TLS and `ws://` without. Trailing
/// slashes of the host are dropped first, and the endpoint is appended where
/// no path is given.
pub open spec fn websocket_url_spec(host: Seq<char>, endpoint: Seq<char>, tls: bool) -> Seq<char> {
    let h = trim_end_char_spec(host, '/');
    if "ws://"@.is_prefix_of(h) || "wss://"@.is_prefix_of(h) {
        h
    } else if "https://"@.is_prefix_of(h) {
        url_with_default_endpoint_spec("wss"@, h.skip("https://"@.len() as int), endpoint)
    } else if "http://"@.is_prefix_of(h) {
        url_with_default_endpoint_spec("ws"@, h.skip("http://"@.len() as int), endpoint)
    } else {
        url_with_default_endpoint_spec(if tls { "wss"@ } else { "ws"@ }, h, endpoint)
    }
}

/// `scheme://host_or_path`, followed by `endpoint` where `host_or_path` holds no `/`.
pub fn url_with_default_endpoint(scheme: &str, host_or_path: &str, endpoint: &str) -> (url: String)
    ensures
        url@ == url_with_default_endpoint_spec(scheme@, host_or_path@, endpoint@),
{
    let mut url = concatenate(scheme, "://");
    url.append(host_or_path);
    if !contains_char(host_or_path, '/') {
        url.append(endpoint);
    }
    url
}

/// The client of one TrueNAS system.
#[derive(Debug, Clone)]
pub struct TrueNasClient {
    config: TrueNasConfig,
    timeout: Duration,
}

impl TrueNasClient {
    /// The configuration the client was made with.
    pub closed spec fn config_spec(&self) -> TrueNasConfig {
        self.config
    }

    /// The time allowed for each network step.
    pub closed spec fn timeout_spec(&self) -> Duration {
        self.timeout
    }

    /// A client for `config` that allows `timeout` for each network step.
    pub fn new(config: TrueNasConfig, timeout: Duration) -> (client: Self)
        ensures
            client.config_spec() == config,
            client.timeout_spec() == timeout,
    {
        TrueNasClient { config, timeout }
    }

    /// The configuration the client was made with.
    pub fn config(&self) -> (c: &TrueNasConfig)
        ensures
            *c == self.config_spec(),
    {
        &self.config
    }

    /// The time allowed for each network step.
    pub fn timeout(&self) -> (d: Duration)
        ensures
            d == self.timeout_spec(),
    {
        self.timeout
    }

    /// The WebSocket URL to connect to.
    pub fn websocket_url(&self) -> (url: String)
        ensures
            url@ == websocket_url_spec(
                self.config_spec().host@,
                self.config_spec().endpoint@,
                self.config_spec().tls,
            ),
    {
        let host = trim_end_char(self.config.host.as_str(), '/');
        let host = host.as_str();
        if starts_with(host, "ws://") || starts_with(host, "wss://") {
            return String::from_str(host);
        }
        if let Some(rest) = strip_prefix(host, "https://") {
            return url_with_default_endpoint("wss", rest.as_str(), self.config.endpoint.as_str());
        }
        if let Some(rest) = strip_prefix(host, "http://") {
            return url_with_default_endpoint("ws", rest.as_str(), self.config.endpoint.as_str());
        }
        let scheme = if self.config.tls {
            "wss"
        } else {
            "ws"
        };
        url_with_default_endpoint(scheme, host, self.config.endpoint.as_str())
    }
}

/// The keys under which a temperature may stand in an object, in the order
/// they are tried.
pub open spec fn temperature_key(k: int) -> Seq<char> {
    if k == 0 {
        "temperature"@
    } else if k == 1 {
        "temp"@
    } else if k == 2 {
        "value"@
    } else {
        "current"@
    }
}

/// The temperature that a value of the `disk.temperatures` result gives: a
/// number is one; in an object, the first of `temperature`, `temp`, `value`
/// and `current` whose member gives one.
pub open spec fn extract_temperature_spec<N>(v: JsonValue<N>) -> Option<N>
    decreases v, 5int,
{
    match v {
        JsonValue::Number(n) => Some(n),
        JsonValue::Object(_) => extract_from_key(v, 0),
        _ => None,
    }
}

/// The temperature found under the `k`-th key or a later one.
pub open spec fn extract_from_key<N>(v: JsonValue<N>, k: int) -> Option<N>
    decreases v, 4 - k,
{
    if k < 0 || k >= 4 {
        None
    } else {
        match v {
            JsonValue::Object(fields) => {
                let i = first_field_index(fields@, temperature_key(k));
                if 0 <= i < fields@.len() {
                    match extract_temperature_spec(fields@[i].1) {
                        Some(t) => Some(t),
                        None => extract_from_key(v, k + 1),
                    }
                } else {
                    extract_from_key(v, k + 1)
                }
            },
            _ => None,
        }
    }
}

fn temperature_key_str(k: usize) -> (key: &'static str)
    requires
        k < 4,
    ensures
        key@ == temperature_key(k as int),
{
    if k == 0 {
        "temperature"
    } else if k == 1 {
        "temp"
    } else if k == 2 {
        "value"
    } else {
        "current"
    }
}

/// Whether `value` gives a temperature.
pub fn has_temperature<N>(value: &JsonValue<N>) -> (b: bool)
    ensures
        b == extract_temperature_spec(*value) is Some,
    decreases value,
{
    match value {
        JsonValue::Number(_) => true,
        JsonValue::Object(fields) => {
            let mut k: usize = 0;
            while k < 4
                invariant
                    k <= 4,
                    *value == JsonValue::Object(*fields),
                    extract_temperature_spec(*value) == extract_from_key(*value, k as int),
                decreases 4 - k,
            {
                match find_field(fields, temperature_key_str(k)) {
                    Some(i) => {
                        assert(decreases_to!(*value => fields@[i as int].1));
                        if has_temperature(&fields[i].1) {
                            return true;
                        }
                    },
                    None => {},
                }
                k = k + 1;
            }
            false
        },
        _ => false,
    }
}

/// The position of the member that gives the temperature of an object: the
/// member under the first of the temperature keys whose member gives one.
fn temperature_field<N>(fields: &Vec<(String, JsonValue<N>)>) -> (res: Option<usize>)
    ensures
        match res {
            Some(i) => {
                &&& i < fields@.len()
                &&& extract_temperature_spec(fields@[i as int].1) is Some
                &&& extract_from_key(JsonValue::Object(*fields), 0) == extract_temperature_spec(
                    fields@[i as int].1,
                )
            },
            None => extract_from_key(JsonValue::Object(*fields), 0) is None,
        },
{
    let ghost v = JsonValue::Object(*fields);
    let mut k: usize = 0;
    while k < 4
        invariant
            k <= 4,
            v == JsonValue::Object(*fields),
            extract_from_key(v, 0) == extract_from_key(v, k as int),
        decreases 4 - k,
    {
        match find_field(fields, temperature_key_str(k)) {
            Some(i) => {
                if has_temperature(&fields[i].1) {
                    return Some(i);
                }
            },
            None => {},
        }
        k = k + 1;
    }
    None
}

/// The temperature that `value` gives (see `extract_temperature_spec`).
pub fn extract_temperature_c<N>(value: JsonValue<N>) -> (t: Option<N>)
    ensures
        t == extract_temperature_spec(value),
    decreases value,
{
    match value {
        JsonValue::Number(n) => Some(n),
        JsonValue::Object(fields) => {
            match temperature_field(&fields) {
                Some(i) => {
                    let mut fields = fields;
                    let ghost child = fields@[i as int].1;
                    assert(decreases_to!(value => child));
                    let (_, nested) = fields.remove(i);
                    extract_temperature_c(nested)
                },
                None => None,
            }
        },
        _ => None,
    }
}

/// Why the `disk.temperatures` result gave no temperatures.
#[derive(Debug, Clone, Copy, PartialEq, Eq, Structural)]
pub enum TemperaturesError {
    /// The result is not an object.
    NotObject,
    /// No member of the result gives a temperature.
    NoUsableTemperatures,
}

/// The temperatures that the members of a `disk.temperatures` result give,
/// disk name to temperature, each member in turn replacing an earlier one of
/// the same name; members that give none are left out.
pub open spec fn collected_temperatures<N>(fields: Seq<(String, JsonValue<N>)>) -> Map<Seq<char>, N>
    decreases fields.len(),
{
    if fields.len() == 0 {
        Map::empty()
    } else {
        let m = collected_temperatures(fields.drop_last());
        match extract_temperature_spec(fields.last().1) {
            Some(t) => m.insert(fields.last().0@, t),
            None => m,
        }
    }
}

/// The disk temperatures of a `disk.temperatures` result: an error where it
/// is not an object or gives no temperature at all.
pub fn collect_temperatures<N>(result: JsonValue<N>) -> (res: Result<TempMap<N>, TemperaturesError>)
    ensures
        match result {
            JsonValue::Object(fields) => {
                let m = collected_temperatures(fields@);
                match res {
                    Ok(temps) => temps@ == m && m != Map::<Seq<char>, N>::empty(),
                    Err(e) => e == TemperaturesError::NoUsableTemperatures && m == Map::<
                        Seq<char>,
                        N,
                    >::empty(),
                }
            },
            _ => res == Err::<TempMap<N>, TemperaturesError>(TemperaturesError::NotObject),
        },
{
    match result {
        JsonValue::Object(fields) => {
            let ghost all = fields@;
            let mut fields = fields;
            let mut temperatures = TempMap::new();
            let n = fields.len();
            let mut i: usize = 0;
            assert(all.subrange(0, 0) =~= Seq::<(String, JsonValue<N>)>::empty());
            while i < n
                invariant
                    n == all.len(),
                    i <= n,
                    fields@ == all.skip(i as int),
                    temperatures@ == collected_temperatures(all.subrange(0, i as int)),
                decreases n - i,
            {
                let (name, value) = fields.remove(0);
                assert(all.subrange(0, i + 1).drop_last() =~= all.subrange(0, i as int));
                assert(all.subrange(0, i + 1).last() == all[i as int]);
                assert(fields@ =~= all.skip(i + 1));
                match extract_temperature_c(value) {
                    Some(t) => {
                        temperatures.insert(name, t);
                    },
                    None => {},
                }
                i = i + 1;
            }
            assert(all.subrange(0, n as int) =~= all);
            if temperatures.is_empty() {
                Err(TemperaturesError::NoUsableTemperatures)
            } else {
                Ok(temperatures)
            }
        },
        _ => Err(TemperaturesError::NotObject),
    }
}

/// Whether a failed `disk.temperatures` call asks to be repeated with its
/// options as an object (older releases refuse `false` there): the error text
/// mentions `options` and `A dict was expected`.
pub fn should_retry_disk_temperature_options(message: &str) -> (retry: bool)
    ensures
        retry == (contains_seq(message@, "options"@) && contains_seq(message@, "A dict was expected"@)),
{
    contains_str(message, "options") && contains_str(message, "A dict was expected")
}

/// A JSON string holding `s`.
fn json_string<N>(s: &str) -> (v: JsonValue<N>)
    ensures
        json_as_str(v) == Some(s@),
{
    JsonValue::String(String::from_str(s))
}

/// The JSON strings holding `items`, in order.
fn json_strings<N>(items: &Vec<String>) -> (v: Vec<JsonValue<N>>)
    ensures
        v@.len() == items@.len(),
        forall|i: int| 0 <= i < items@.len() ==> json_as_str(#[trigger] v@[i]) == Some(items@[i]@),
{
    let mut v: Vec<JsonValue<N>> = Vec::new();
    let n = items.len();
    let mut i: usize = 0;
    while i < n
        invariant
            n == items@.len(),
            i <= n,
            v@.len() == i,
            forall|j: int| 0 <= j < i ==> json_as_str(#[trigger] v@[j]) == Some(items@[j]@),
        decreases n - i,
    {
        v.push(json_string(items[i].as_str()));
        i = i + 1;
    }
    v
}

impl TrueNasClient {
    /// Whether TLS certificates go unchecked: TLS is on and verification is off.
    pub fn accepts_invalid_certs(&self) -> (b: bool)
        ensures
            b == (self.config_spec().tls && !self.config_spec().tls_verify),
    {
        self.config.tls && !self.config.tls_verify
    }

    /// Whether the client speaks the legacy WebSocket protocol: the endpoint is `/websocket`.
    pub fn uses_legacy_api(&self) -> (b: bool)
        ensures
            b == (self.config_spec().endpoint@ == "/websocket"@),
    {
        str_eq(self.config.endpoint.as_str(), "/websocket")
    }

    /// The parameters of `auth.login_with_api_key`: the API key alone.
    pub fn login_params<N>(&self) -> (p: JsonValue<N>)
        ensures
            match p {
                JsonValue::Array(items) => items@.len() == 1 && json_as_str(items@[0]) == Some(
                    self.config_spec().api_key@,
                ),
                _ => false,
            },
    {
        let mut items: Vec<JsonValue<N>> = Vec::new();
        items.push(json_string(self.config.api_key.as_str()));
        JsonValue::Array(items)
    }

    /// The parameters of `disk.temperatures`: the configured disk names, then
    /// the options, `false` or, for releases that want an object, `{}`.
    pub fn disk_temperatures_params<N>(&self, options_as_object: bool) -> (p: JsonValue<N>)
        ensures
            match p {
                JsonValue::Array(items) => {
                    &&& items@.len() == 2
                    &&& match items@[0] {
                        JsonValue::Array(names) => {
                            &&& names@.len() == self.config_spec().disk_names@.len()
                            &&& forall|i: int|
                                0 <= i < names@.len() ==> json_as_str(#[trigger] names@[i]) == Some(
                                    self.config_spec().disk_names@[i]@,
                                )
                        },
                        _ => false,
                    }
                    &&& if options_as_object {
                        match items@[1] {
                            JsonValue::Object(fields) => fields@.len() == 0,
                            _ => false,
                        }
                    } else {
                        items@[1] == JsonValue::<N>::Bool(false)
                    }
                },
                _ => false,
            },
    {
        let mut items: Vec<JsonValue<N>> = Vec::new();
        items.push(JsonValue::Array(json_strings(&self.config.disk_names)));
        if options_as_object {
            items.push(JsonValue::Object(Vec::new()));
        } else {
            items.push(JsonValue::Bool(false));
        }
        JsonValue::Array(items)
    }
}

/// The first message of the legacy protocol: `connect`, version `1`, supporting `1`.
pub fn legacy_connect_payload<N>() -> (p: JsonValue<N>)
    ensures
        match p {
            JsonValue::Object(fields) => {
                &&& fields@.len() == 3
                &&& fields@[0].0@ == "msg"@
                &&& json_as_str(fields@[0].1) == Some("connect"@)
                &&& fields@[1].0@ == "version"@
                &&& json_as_str(fields@[1].1) == Some("1"@)
                &&& fields@[2].0@ == "support"@
                &&& match fields@[2].1 {
                    JsonValue::Array(items) => items@.len() == 1 && json_as_str(items@[0]) == Some("1"@),
                    _ => false,
                }
            },
            _ => false,
        },
{
    let mut support: Vec<JsonValue<N>> = Vec::new();
    support.push(json_string("1"));
    let mut fields: Vec<(String, JsonValue<N>)> = Vec::new();
    fields.push((String::from_str("msg"), json_string("connect")));
    fields.push((String::from_str("version"), json_string("1")));
    fields.push((String::from_str("support"), JsonValue::Array(support)));
    JsonValue::Object(fields)
}

/// A call of `method` in the legacy protocol, under the id `request_id`.
pub fn legacy_call_payload<N>(method: &str, request_id: &str, params: JsonValue<N>) -> (p: JsonValue<N>)
    ensures
        match p {
            JsonValue::Object(fields) => {
                &&& fields@.len() == 4
                &&& fields@[0].0@ == "msg"@
                &&& json_as_str(fields@[0].1) == Some("method"@)
                &&& fields@[1].0@ == "method"@
                &&& json_as_str(fields@[1].1) == Some(method@)
                &&& fields@[2].0@ == "id"@
                &&& json_as_str(fields@[2].1) == Some(request_id@)
                &&& fields@[3].0@ == "params"@
                &&& fields@[3].1 == params
            },
            _ => false,
        },
{
    let mut fields: Vec<(String, JsonValue<N>)> = Vec::new();
    fields.push((String::from_str("msg"), json_string("method")));
    fields.push((String::from_str("method"), json_string(method)));
    fields.push((String::from_str("id"), json_string(request_id)));
    fields.push((String::from_str("params"), params));
    JsonValue::Object(fields)
}

/// What a reply to the legacy `connect` message means.
#[derive(Debug, Clone, Copy, PartialEq, Eq, Structural)]
pub enum HandshakeStep {
    /// `msg` is `connected`: the session is open.
    Connected,
    /// `msg` is `failed`: the server refuses the protocol version.
    Rejected,
    /// Anything else: wait for the next message.
    Ignore,
}

/// What a reply to the legacy `connect` message means (see `HandshakeStep`).
pub fn legacy_connect_step<N>(response: &JsonValue<N>) -> (step: HandshakeStep)
    ensures
        step == if json_get_str(*response, "msg"@) == Some("connected"@) {
            HandshakeStep::Connected
        } else if json_get_str(*response, "msg"@) == Some("failed"@) {
            HandshakeStep::Rejected
        } else {
            HandshakeStep::Ignore
        },
{
    match response.get_str("msg") {
        Some(m) => {
            if str_eq(m.as_str(), "connected") {
                HandshakeStep::Connected
            } else if str_eq(m.as_str(), "failed") {
                HandshakeStep::Rejected
            } else {
                HandshakeStep::Ignore
            }
        },
        None => HandshakeStep::Ignore,
    }
}

/// What a message received while waiting for a legacy call's reply means.
#[derive(Debug)]
pub enum LegacyStep<N> {
    /// Another message: wait for the next one.
    Ignore,
    /// The reply carries this error.
    Failed(JsonValue<N>),
    /// The reply carries no result.
    NoResult,
    /// The reply carries this result.
    Done(JsonValue<N>),
}

/// What `response` means while waiting for the reply to the legacy call with
/// id `request_id`: a reply has that `id` and `msg` `result`; its `error`
/// member, where it has one, makes the call fail; otherwise its `result`
/// member is the call's result.
pub fn legacy_call_step<N>(request_id: &str, response: JsonValue<N>) -> (step: LegacyStep<N>)
    ensures
        if json_get_str(response, "id"@) != Some(request_id@) || json_get_str(response, "msg"@) != Some(
            "result"@,
        ) {
            step is Ignore
        } else {
            match json_get(response, "error"@) {
                Some(e) => step == LegacyStep::Failed(e),
                None => match json_get(response, "result"@) {
                    Some(r) => step == LegacyStep::Done(r),
                    None => step is NoResult,
                },
            }
        },
{
    let id_matches = match response.get_str("id") {
        Some(id) => str_eq(id.as_str(), request_id),
        None => false,
    };
    if !id_matches {
        return LegacyStep::Ignore;
    }
    let is_result = match response.get_str("msg") {
        Some(m) => str_eq(m.as_str(), "result"),
        None => false,
    };
    if !is_result {
        return LegacyStep::Ignore;
    }
    if response.get("error").is_some() {
        match response.take("error") {
            Some(e) => LegacyStep::Failed(e),
            None => LegacyStep::NoResult,
        }
    } else {
        match response.take("result") {
            Some(r) => LegacyStep::Done(r),
            None => LegacyStep::NoResult,
        }
    }
}

/// The error member of a JSON-RPC reply.
#[derive(Debug)]
pub struct RpcError {
    pub code: i64,
    pub message: String,
}

/// A JSON-RPC reply as decoded from the wire.
#[derive(Debug)]
pub struct RpcResponse<N> {
    pub id: Option<u64>,
    pub result: Option<JsonValue<N>>,
    pub error: Option<RpcError>,
}

/// What a message received while waiting for a JSON-RPC reply means.
#[derive(Debug)]
pub enum CallStep<N> {
    /// A reply to another request: wait for the next one.
    Ignore,
    /// The reply carries this error.
    Failed(RpcError),
    /// The reply carries no result.
    NoResult,
    /// The reply carries this result.
    Done(JsonValue<N>),
}

/// What `response` means while waiting for the reply to request `request_id`:
/// a reply with another id is passed over; an error makes the call fail;
/// otherwise the result is the call's result.
pub fn call_step<N>(request_id: u64, response: RpcResponse<N>) -> (step: CallStep<N>)
    ensures
        if response.id != Some(request_id) {
            step is Ignore
        } else {
            match response.error {
                Some(e) => step == CallStep::<N>::Failed(e),
                None => match response.result {
                    Some(r) => step == CallStep::Done(r),
                    None => step is NoResult,
                },
            }
        },
{
    let matches = match response.id {
        Some(id) => id == request_id,
        None => false,
    };
    if !matches {
        return CallStep::Ignore;
    }
    match response.error {
        Some(e) => CallStep::Failed(e),
        None => match response.result {
            Some(r) => CallStep::Done(r),
            None => CallStep::NoResult,
        },
    }
}

/// The method that logs in: `auth.login_with_api_key`, on the current and the legacy API alike.
pub fn login_method() -> (m: &'static str)
    ensures
        m@ == "auth.login_with_api_key"@,
{
    "auth.login_with_api_key"
}

/// The method that reads the disk temperatures: `disk.temperatures`.
pub fn disk_temperatures_method() -> (m: &'static str)
    ensures
        m@ == "disk.temperatures"@,
{
    "disk.temperatures"
}

/// Whether `auth.login_with_api_key` succeeded: its result is `true`.
pub fn login_succeeded<N>(result: &JsonValue<N>) -> (ok: bool)
    ensures
        ok == (*result == JsonValue::<N>::Bool(true)),
{
    result.as_bool() == Some(true)
}

/// A JSON-RPC 2.0 request, as the current API takes it.
#[derive(Debug)]
pub struct RpcRequest<N> {
    pub jsonrpc: String,
    pub id: u64,
    pub method: String,
    pub params: JsonValue<N>,
}

/// The JSON-RPC 2.0 request that calls `method` with `params` under id `id`.
pub fn rpc_request<N>(id: u64, method: &str, params: JsonValue<N>) -> (r: RpcRequest<N>)
    ensures
        r.jsonrpc@ == "2.0"@,
        r.id == id,
        r.method@ == method@,
        r.params == params,
{
    RpcRequest { jsonrpc: String::from_str("2.0"), id, method: String::from_str(method), params }
}

/// Takes the next request id: returns the current one and counts on.
pub fn next_request_id(next_id: &mut u64) -> (id: u64)
    requires
        *old(next_id) < u64::MAX,
    ensures
        id == *old(next_id),
        *final(next_id) == *old(next_id) + 1,
{
    let id = *next_id;
    *next_id = id + 1;
    id
}

/// Decodes `bytes` as UTF-8 with `String::from_utf8`: the text they encode
/// where they are valid UTF-8, nothing otherwise.
#[verifier::external_body]
fn string_from_utf8(bytes: Vec<u8>) -> (res: Option<String>)
    ensures
        match res {
            Some(s) => valid_utf8(bytes@) && s@ == decode_utf8(bytes@),
            None => !valid_utf8(bytes@),
        },
{
    String::from_utf8(bytes).ok()
}

/// A WebSocket message as received.
#[derive(Debug)]
pub enum WsFrame {
    Text(String),
    Binary(Vec<u8>),
    /// A close frame, with its code and reason where it carries them.
    Close(Option<(u16, String)>),
    /// A ping, pong or raw frame.
    Other,
}

/// Why a received message ends the wait for a reply.
#[derive(Debug)]
pub enum FrameError {
    /// A binary message that is not UTF-8.
    InvalidUtf8,
    /// The server closed the connection, with the code and reason where given.
    Closed(Option<(u16, String)>),
}

/// The text of a received message: a text message's text, a binary message's
/// UTF-8 text; a close frame or invalid UTF-8 is an error; other messages carry none.
pub fn message_to_text(message: WsFrame) -> (res: Result<Option<String>, FrameError>)
    ensures
        match message {
            WsFrame::Text(t) => res == Ok::<Option<String>, FrameError>(Some(t)),
            WsFrame::Binary(b) => if valid_utf8(b@) {
                res matches Ok(Some(t)) && t@ == decode_utf8(b@)
            } else {
                res matches Err(FrameError::InvalidUtf8)
            },
            WsFrame::Close(frame) => res matches Err(FrameError::Closed(f)) && f == frame,
            WsFrame::Other => res == Ok::<Option<String>, FrameError>(None),
        },
{
    match message {
        WsFrame::Text(t) => Ok(Some(t)),
        WsFrame::Binary(b) => match string_from_utf8(b) {
            Some(t) => Ok(Some(t)),
            None => Err(FrameError::InvalidUtf8),
        },
        WsFrame::Close(frame) => Err(FrameError::Closed(frame)),
        WsFrame::Other => Ok(None),
    }
}

/// Why the WebSocket connection could not be opened.
#[derive(Debug)]
pub enum ConnectFailure {
    /// The server answered the upgrade with an HTTP status (as displayed),
    /// and the `Location` header where it sent a readable one.
    Http { status: String, location: Option<String> },
    /// Any other failure, as displayed.
    Other(String),
}

/// The text that reports a failed connection to `url`.
pub fn describe_connect_error(url: &str, err: ConnectFailure) -> (text: String)
    ensures
        text@ == match err {
            ConnectFailure::Http { status, location } => "connect TrueNAS WebSocket: "@ + url@ + ": HTTP "@
                + status@ + "; Location: "@ + match location {
                Some(l) => l@,
                None => "<missing>"@,
            },
            ConnectFailure::Other(other) => "connect TrueNAS WebSocket: "@ + url@ + ": "@ + other@,
        },
{
    let mut text = concatenate("connect TrueNAS WebSocket: ", url);
    match err {
        ConnectFailure::Http { status, location } => {
            text.append(": HTTP ");
            text.append(status.as_str());
            text.append("; Location: ");
            match location {
                Some(l) => text.append(l.as_str()),
                None => text.append("<missing>"),
            }
        },
        ConnectFailure::Other(other) => {
            text.append(": ");
            text.append(other.as_str());
        },
    }
    text
}

/// The client always connects with a WebSocket URL: it starts with `ws://` or `wss://`.
pub proof fn lemma_websocket_url_scheme(host: Seq<char>, endpoint: Seq<char>, tls: bool)
    ensures
        "ws://"@.is_prefix_of(websocket_url_spec(host, endpoint, tls)) || "wss://"@.is_prefix_of(
            websocket_url_spec(host, endpoint, tls),
        ),
{
    reveal_strlit("ws://");
    reveal_strlit("wss://");
    reveal_strlit("://");
    reveal_strlit("ws");
    reveal_strlit("wss");
    let url = websocket_url_spec(host, endpoint, tls);
    let h = trim_end_char_spec(host, '/');
    if "ws://"@.is_prefix_of(h) || "wss://"@.is_prefix_of(h) {
    } else {
        let (scheme, rest) = if "https://"@.is_prefix_of(h) {
            ("wss"@, h.skip("https://"@.len() as int))
        } else if "http://"@.is_prefix_of(h) {
            ("ws"@, h.skip("http://"@.len() as int))
        } else {
            (if tls { "wss"@ } else { "ws"@ }, h)
        };
        assert(url == url_with_default_endpoint_spec(scheme, rest, endpoint));
        let tail = if rest.contains('/') { rest } else { rest + endpoint };
        assert(url =~= scheme + "://"@ + tail);
        if scheme == "wss"@ {
            assert(url.subrange(0, 6) =~= "wss://"@);
        } else {
            assert(url.subrange(0, 5) =~= "ws://"@);
        }
    }
}

impl TemperaturesError {
    /// The text that reports why no temperatures came.
    pub fn message(&self) -> (text: &'static str)
        ensures
            text@ == match *self {
                TemperaturesError::NotObject => "disk.temperatures returned non-object result"@,
                TemperaturesError::NoUsableTemperatures => "TrueNAS returned no usable disk temperatures"@,
            },
    {
        match self {
            TemperaturesError::NotObject => "disk.temperatures returned non-object result",
            TemperaturesError::NoUsableTemperatures => "TrueNAS returned no usable disk temperatures",
        }
    }
}

/// Whether to call `disk.temperatures` once more with its options as an
/// object: only after the first call (options `false`) failed with the error
/// that asks for an object; the second call's error stands.
pub fn retry_with_object_options(options_as_object: bool, error_text: &str) -> (retry: bool)
    ensures
        retry == (!options_as_object && contains_seq(error_text@, "options"@) && contains_seq(
            error_text@,
            "A dict was expected"@,
        )),
{
    !options_as_object && should_retry_disk_temperature_options(error_text)
}

/// What has happened so far in a login.
#[derive(Debug)]
pub enum LoginEvent<N> {
    /// The connection is open; nothing was sent yet.
    Started,
    /// The legacy `connect` handshake succeeded.
    HandshakeDone,
    /// `auth.login_with_api_key` answered with this result.
    Replied(JsonValue<N>),
}

/// Why a login failed.
#[derive(Debug, Clone, Copy, PartialEq, Eq, Structural)]
pub enum LoginFailure {
    /// The legacy API refused the key.
    LegacyAuthFailed,
    /// The current API refused the key.
    AuthFailed,
}

impl LoginFailure {
    /// The text that reports the failed login.
    pub fn message(&self) -> (text: &'static str)
        ensures
            text@ == match *self {
                LoginFailure::LegacyAuthFailed => "TrueNAS legacy API key authentication failed"@,
                LoginFailure::AuthFailed => "TrueNAS API key authentication failed"@,
            },
    {
        match self {
            LoginFailure::LegacyAuthFailed => "TrueNAS legacy API key authentication failed",
            LoginFailure::AuthFailed => "TrueNAS API key authentication failed",
        }
    }
}

/// What to do next in a login.
#[derive(Debug, Clone, Copy, PartialEq, Eq, Structural)]
pub enum LoginAction {
    /// Run the legacy `connect` handshake.
    SendHandshake,
    /// Call `auth.login_with_api_key` with `login_params`.
    SendLogin,
    /// The session is logged in.
    LoggedIn,
    /// The login failed.
    Failed(LoginFailure),
}

/// The next step of a login: on the legacy API the handshake comes first;
/// then the key is sent; a result of `true` logs in, anything else fails.
pub open spec fn login_next_spec<N>(legacy: bool, event: LoginEvent<N>) -> LoginAction {
    match event {
        LoginEvent::Started => if legacy {
            LoginAction::SendHandshake
        } else {
            LoginAction::SendLogin
        },
        LoginEvent::HandshakeDone => LoginAction::SendLogin,
        LoginEvent::Replied(r) => if r == JsonValue::<N>::Bool(true) {
            LoginAction::LoggedIn
        } else if legacy {
            LoginAction::Failed(LoginFailure::LegacyAuthFailed)
        } else {
            LoginAction::Failed(LoginFailure::AuthFailed)
        },
    }
}

/// The next step of a login (see `login_next_spec`).
pub fn login_next<N>(legacy: bool, event: &LoginEvent<N>) -> (action: LoginAction)
    ensures
        action == login_next_spec(legacy, *event),
{
    match event {
        LoginEvent::Started => if legacy {
            LoginAction::SendHandshake
        } else {
            LoginAction::SendLogin
        },
        LoginEvent::HandshakeDone => LoginAction::SendLogin,
        LoginEvent::Replied(r) => if login_succeeded(r) {
            LoginAction::LoggedIn
        } else if legacy {
            LoginAction::Failed(LoginFailure::LegacyAuthFailed)
        } else {
            LoginAction::Failed(LoginFailure::AuthFailed)
        },
    }
}

/// A login reaches the key only through the handshake on the legacy API, and
/// directly on the current one; whatever the server answers, the next step
/// after a reply ends the login.
pub proof fn lemma_login_order<N>(legacy: bool, result: JsonValue<N>)
    ensures
        legacy ==> login_next_spec(legacy, LoginEvent::<N>::Started) == LoginAction::SendHandshake,
        !legacy ==> login_next_spec(legacy, LoginEvent::<N>::Started) == LoginAction::SendLogin,
        login_next_spec(legacy, LoginEvent::<N>::HandshakeDone) == LoginAction::SendLogin,
        login_next_spec(legacy, LoginEvent::Replied(result)) matches LoginAction::LoggedIn
            || login_next_spec(legacy, LoginEvent::Replied(result)) matches LoginAction::Failed(_),
{
}

/// A login reply of exactly JSON `true` logs in, on the legacy API and on the
/// current one alike; any other reply is a failure.
pub proof fn lemma_login_reply_decides<N>(legacy: bool, reply: JsonValue<N>)
    ensures
        login_next_spec(legacy, LoginEvent::Replied(JsonValue::<N>::Bool(true))) == LoginAction::LoggedIn,
        reply != JsonValue::<N>::Bool(true) ==> login_next_spec(legacy, LoginEvent::Replied(reply)) matches LoginAction::Failed(_),
{
}

/// The temperature of an object is looked up under `temperature`, then
/// `temp`, then `value`, then `current`: the first of these keys present
/// whose member is a number gives that number, and an object with none of
/// them gives no temperature.
pub proof fn lemma_temperature_key_order<N>(fields: Vec<(String, JsonValue<N>)>, n: N)
    ensures
        ({
            let v = JsonValue::Object(fields);
            let f = fields@;
            let at = |k: Seq<char>| first_field_index(f, k);
            &&& at("temperature"@) >= 0 && f[at("temperature"@)].1 == JsonValue::Number(n) ==> extract_temperature_spec(v) == Some(n)
            &&& at("temperature"@) == -1 && at("temp"@) >= 0 && f[at("temp"@)].1 == JsonValue::Number(n)
                ==> extract_temperature_spec(v) == Some(n)
            &&& at("temperature"@) == -1 && at("temp"@) == -1 && at("value"@) >= 0 && f[at("value"@)].1
                == JsonValue::Number(n) ==> extract_temperature_spec(v) == Some(n)
            &&& at("temperature"@) == -1 && at("temp"@) == -1 && at("value"@) == -1 && at("current"@) >= 0
                && f[at("current"@)].1 == JsonValue::Number(n) ==> extract_temperature_spec(v) == Some(n)
            &&& at("temperature"@) == -1 && at("temp"@) == -1 && at("value"@) == -1 && at("current"@) == -1
                ==> extract_temperature_spec(v) is None
        }),
{
    let v = JsonValue::Object(fields);
    let f = fields@;
    assert forall|k: Seq<char>| #[trigger] first_field_index(f, k) >= 0 implies first_field_index(f, k) < f.len() by {
        if exists|i: int| is_first_field(f, k, i) {
            let c = choose|i: int| is_first_field(f, k, i);
            assert(is_first_field(f, k, c));
        }
    }
    let n0 = JsonValue::<N>::Number(n);
    assert(extract_temperature_spec(n0) == Some(n));
    assert(extract_temperature_spec(v) == extract_from_key(v, 0));
    assert(extract_from_key(v, 4) is None);
    assert(temperature_key(0) == "temperature"@);
    assert(temperature_key(1) == "temp"@);
    assert(temperature_key(2) == "value"@);
    assert(temperature_key(3) == "current"@);
    if first_field_index(f, "temperature"@) == -1 {
        assert(extract_from_key(v, 0) == extract_from_key(v, 1));
        if first_field_index(f, "temp"@) == -1 {
            assert(extract_from_key(v, 1) == extract_from_key(v, 2));
            if first_field_index(f, "value"@) == -1 {
                assert(extract_from_key(v, 2) == extract_from_key(v, 3));
                if first_field_index(f, "current"@) == -1 {
                    assert(extract_from_key(v, 3) == extract_from_key(v, 4));
                }
            }
        }
    }
}

proof fn lemma_literal_prefixes()
    ensures
        "ws://"@ == seq!['w', 's', ':', '/', '/'],
        "wss://"@ == seq!['w', 's', 's', ':', '/', '/'],
        "http://"@ == seq!['h', 't', 't', 'p', ':', '/', '/'],
        "https://"@ == seq!['h', 't', 't', 'p', 's', ':', '/', '/'],
        "://"@ == seq![':', '/', '/'],
        "ws"@ == seq!['w', 's'],
        "wss"@ == seq!['w', 's', 's'],
{
    reveal_strlit("ws://");
    reveal_strlit("wss://");
    reveal_strlit("http://");
    reveal_strlit("https://");
    reveal_strlit("://");
    reveal_strlit("ws");
    reveal_strlit("wss");
}

/// A host given as an `http://` or `https://` URL with a path is used as
/// given, turned into `ws://` or `wss://`, whatever the endpoint and the TLS
/// setting.
pub proof fn lemma_url_keeps_given_path(rest: Seq<char>, endpoint: Seq<char>, tls: bool)
    requires
        rest.contains('/'),
        rest.last() != '/',
    ensures
        websocket_url_spec("http://"@ + rest, endpoint, tls) == "ws://"@ + rest,
        websocket_url_spec("https://"@ + rest, endpoint, tls) == "wss://"@ + rest,
{
    lemma_literal_prefixes();
    let h1 = "http://"@ + rest;
    let h2 = "https://"@ + rest;
    assert(rest.len() > 0);
    assert(h1.last() == rest.last());
    assert(h2.last() == rest.last());
    assert(trim_end_char_spec(h1, '/') == h1);
    assert(trim_end_char_spec(h2, '/') == h2);
    assert(h1[0] == 'h' && h2[0] == 'h');
    assert(!"ws://"@.is_prefix_of(h1) && !"wss://"@.is_prefix_of(h1)) by {
        if "ws://"@.is_prefix_of(h1) {
            assert(h1.subrange(0, 5)[0] == h1[0]);
        }
        if "wss://"@.is_prefix_of(h1) {
            assert(h1.subrange(0, 6)[0] == h1[0]);
        }
    }
    assert(!"ws://"@.is_prefix_of(h2) && !"wss://"@.is_prefix_of(h2)) by {
        if "ws://"@.is_prefix_of(h2) {
            assert(h2.subrange(0, 5)[0] == h2[0]);
        }
        if "wss://"@.is_prefix_of(h2) {
            assert(h2.subrange(0, 6)[0] == h2[0]);
        }
    }
    assert(!"https://"@.is_prefix_of(h1)) by {
        assert(h1[4] == ':');
        if "https://"@.is_prefix_of(h1) {
            assert(h1.subrange(0, 8)[4] == h1[4]);
        }
    }
    assert(h1.subrange(0, 7) =~= "http://"@);
    assert(h2.subrange(0, 8) =~= "https://"@);
    assert(h1.skip(7) =~= rest);
    assert(h2.skip(8) =~= rest);
    assert("ws"@ + "://"@ + rest =~= "ws://"@ + rest);
    assert("wss"@ + "://"@ + rest =~= "wss://"@ + rest);
}

/// A bare host (no `/` in it) gets `wss://` with TLS and `ws://` without, and
/// the endpoint appended.
pub proof fn lemma_url_bare_host(host: Seq<char>, endpoint: Seq<char>, tls: bool)
    requires
        !host.contains('/'),
    ensures
        websocket_url_spec(host, endpoint, tls) == (if tls { "wss://"@ } else { "ws://"@ }) + host + endpoint,
{
    lemma_literal_prefixes();
    if host.len() > 0 {
        assert(host.last() == host[host.len() - 1]);
    }
    assert(trim_end_char_spec(host, '/') == host);
    assert(!"ws://"@.is_prefix_of(host)) by {
        if "ws://"@.is_prefix_of(host) {
            assert(host.subrange(0, 5)[3] == host[3]);
        }
    }
    assert(!"wss://"@.is_prefix_of(host)) by {
        if "wss://"@.is_prefix_of(host) {
            assert(host.subrange(0, 6)[4] == host[4]);
        }
    }
    assert(!"https://"@.is_prefix_of(host)) by {
        if "https://"@.is_prefix_of(host) {
            assert(host.subrange(0, 8)[6] == host[6]);
        }
    }
    assert(!"http://"@.is_prefix_of(host)) by {
        if "http://"@.is_prefix_of(host) {
            assert(host.subrange(0, 7)[5] == host[5]);
        }
    }
    assert("wss"@ + "://"@ + host + endpoint =~= "wss://"@ + host + endpoint);
    assert("ws"@ + "://"@ + host + endpoint =~= "ws://"@ + host + endpoint);
}

/// A `ws://` or `wss://` URL is used as given, without its trailing slashes.
pub proof fn lemma_url_given_websocket(rest: Seq<char>, endpoint: Seq<char>, tls: bool)
    requires
        rest.len() > 0,
        rest.last() != '/',
    ensures
        websocket_url_spec("ws://"@ + rest, endpoint, tls) == "ws://"@ + rest,
        websocket_url_spec("wss://"@ + rest, endpoint, tls) == "wss://"@ + rest,
{
    lemma_literal_prefixes();
    let h1 = "ws://"@ + rest;
    let h2 = "wss://"@ + rest;
    assert(h1.last() == rest.last());
    assert(h2.last() == rest.last());
    assert(trim_end_char_spec(h1, '/') == h1);
    assert(trim_end_char_spec(h2, '/') == h2);
    assert(h1.subrange(0, 5) =~= "ws://"@);
    assert(h2.subrange(0, 6) =~= "wss://"@);
}

} // verus!
