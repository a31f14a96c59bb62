use coolercontrol_truenas_bridge::config::TrueNasConfig;
use coolercontrol_truenas_bridge::json::JsonValue;
use coolercontrol_truenas_bridge::truenas::{
    call_step, collect_temperatures, describe_connect_error, disk_temperatures_method, extract_temperature_c,
    legacy_call_payload, legacy_call_step, legacy_connect_payload, legacy_connect_step, login_method,
    login_next, login_succeeded, message_to_text, next_request_id, retry_with_object_options, rpc_request,
    should_retry_disk_temperature_options, LoginAction, LoginEvent, LoginFailure,
    url_with_default_endpoint, CallStep, ConnectFailure, FrameError, HandshakeStep, LegacyStep, RpcError,
    RpcResponse, TemperaturesError, TrueNasClient, WsFrame,
};
use std::time::Duration;

fn config(host: &str) -> TrueNasConfig {
    TrueNasConfig {
        host: host.to_string(),
        endpoint: "/api/current".to_string(),
        username: "coolercontrol".to_string(),
        api_key: "key".to_string(),
        api_key_file: String::new(),
        tls: true,
        tls_verify: false,
        disk_names: vec![],
    }
}

fn s(text: &str) -> JsonValue<f64> {
    JsonValue::String(text.to_string())
}

fn obj(fields: Vec<(&str, JsonValue<f64>)>) -> JsonValue<f64> {
    JsonValue::Object(fields.into_iter().map(|(k, v)| (k.to_string(), v)).collect())
}

#[test]
fn builds_websocket_url_from_bare_host() {
    let client = TrueNasClient::new(config("truenas.local"), Duration::from_secs(1));
    assert_eq!(client.websocket_url(), "wss://truenas.local/api/current");
}

#[test]
fn accepts_https_host() {
    let client = TrueNasClient::new(config("https://truenas.local"), Duration::from_secs(1));
    assert_eq!(client.websocket_url(), "wss://truenas.local/api/current");
}

#[test]
fn preserves_full_websocket_url() {
    let client = TrueNasClient::new(
        config("wss://truenas.local/websocket"),
        Duration::from_secs(1),
    );
    assert_eq!(client.websocket_url(), "wss://truenas.local/websocket");
}

#[test]
fn websocket_url_variants() {
    let mut c = config("http://truenas.local/");
    assert_eq!(TrueNasClient::new(c.clone(), Duration::from_secs(1)).websocket_url(), "ws://truenas.local/api/current");
    c.host = "truenas.local:443".to_string();
    c.tls = false;
    c.endpoint = "/websocket".to_string();
    assert_eq!(TrueNasClient::new(c.clone(), Duration::from_secs(1)).websocket_url(), "ws://truenas.local:443/websocket");
    c.host = "https://truenas.local/custom/path//".to_string();
    assert_eq!(TrueNasClient::new(c.clone(), Duration::from_secs(1)).websocket_url(), "wss://truenas.local/custom/path");
    c.host = "ws://nas///".to_string();
    assert_eq!(TrueNasClient::new(c, Duration::from_secs(1)).websocket_url(), "ws://nas");
}

#[test]
fn url_endpoint_only_for_bare_hosts() {
    assert_eq!(url_with_default_endpoint("wss", "nas", "/api/current"), "wss://nas/api/current");
    assert_eq!(url_with_default_endpoint("ws", "nas/x", "/api/current"), "ws://nas/x");
}

#[test]
fn client_keeps_config_and_timeout() {
    let mut c = config("nas");
    let client = TrueNasClient::new(c.clone(), Duration::from_secs(7));
    assert_eq!(client.timeout(), Duration::from_secs(7));
    assert_eq!(client.config().host, "nas");
    assert!(client.accepts_invalid_certs());
    assert!(!client.uses_legacy_api());
    c.tls_verify = true;
    c.endpoint = "/websocket".to_string();
    let client = TrueNasClient::new(c, Duration::from_secs(7));
    assert!(!client.accepts_invalid_certs());
    assert!(client.uses_legacy_api());
}

#[test]
fn request_parameters() {
    let mut c = config("nas");
    c.disk_names = vec!["sda".to_string(), "sdb".to_string()];
    let client = TrueNasClient::new(c, Duration::from_secs(1));
    match client.login_params::<f64>() {
        JsonValue::Array(items) => {
            assert_eq!(items.len(), 1);
            assert!(matches!(&items[0], JsonValue::String(v) if v == "key"));
        }
        _ => panic!("not an array"),
    }
    assert_eq!(login_method(), "auth.login_with_api_key");
    assert_eq!(disk_temperatures_method(), "disk.temperatures");
    match client.disk_temperatures_params::<f64>(false) {
        JsonValue::Array(items) => {
            assert_eq!(items.len(), 2);
            match &items[0] {
                JsonValue::Array(names) => {
                    assert_eq!(names.len(), 2);
                    assert!(matches!(&names[1], JsonValue::String(v) if v == "sdb"));
                }
                _ => panic!("names"),
            }
            assert!(matches!(items[1], JsonValue::Bool(false)));
        }
        _ => panic!("not an array"),
    }
    match client.disk_temperatures_params::<f64>(true) {
        JsonValue::Array(items) => assert!(matches!(&items[1], JsonValue::Object(f) if f.is_empty())),
        _ => panic!("not an array"),
    }
}

#[test]
fn extracts_temperatures() {
    assert_eq!(extract_temperature_c(JsonValue::Number(41.5)), Some(41.5));
    assert_eq!(extract_temperature_c(s("41")), None);
    assert_eq!(extract_temperature_c(obj(vec![("value", JsonValue::Number(30.0)), ("temp", JsonValue::Number(35.0))])), Some(35.0));
    assert_eq!(
        extract_temperature_c(obj(vec![("temperature", obj(vec![("current", JsonValue::Number(38.0))]))])),
        Some(38.0)
    );
    assert_eq!(
        extract_temperature_c(obj(vec![("temperature", JsonValue::Null), ("current", JsonValue::Number(33.0))])),
        Some(33.0)
    );
    assert_eq!(extract_temperature_c(obj(vec![("celsius", JsonValue::Number(33.0))])), None);
}

#[test]
fn collects_temperatures_in_name_order() {
    let result = obj(vec![
        ("sdb", JsonValue::Number(40.0)),
        ("sda", obj(vec![("temp", JsonValue::Number(35.0))])),
        ("nvme0", JsonValue::Null),
    ]);
    let temps = collect_temperatures(result).ok().unwrap().into_entries();
    assert_eq!(temps, vec![("sda".to_string(), 35.0), ("sdb".to_string(), 40.0)]);
    assert!(matches!(collect_temperatures(JsonValue::<f64>::Array(vec![])), Err(TemperaturesError::NotObject)));
    assert!(matches!(
        collect_temperatures(obj(vec![("sda", JsonValue::Null)])),
        Err(TemperaturesError::NoUsableTemperatures)
    ));
}

#[test]
fn retries_disk_temperatures_on_options_error() {
    assert!(should_retry_disk_temperature_options(
        "disk.temperatures failed: [EINVAL] disk.temperatures.options: A dict was expected (22)"
    ));
    assert!(!should_retry_disk_temperature_options("disk.temperatures failed: A dict was expected"));
    assert!(!should_retry_disk_temperature_options("options missing"));
}

#[test]
fn json_rpc_reply_steps() {
    let reply = |id: Option<u64>, result: Option<JsonValue<f64>>, error: Option<RpcError>| RpcResponse { id, result, error };
    assert!(matches!(call_step(3, reply(Some(2), Some(JsonValue::Bool(true)), None)), CallStep::Ignore));
    assert!(matches!(call_step(3, reply(None, Some(JsonValue::Bool(true)), None)), CallStep::Ignore));
    assert!(matches!(
        call_step(3, reply(Some(3), Some(JsonValue::Bool(true)), Some(RpcError { code: 22, message: "bad".to_string() }))),
        CallStep::Failed(RpcError { code: 22, .. })
    ));
    assert!(matches!(call_step(3, reply(Some(3), None, None)), CallStep::<f64>::NoResult));
    assert!(matches!(call_step(3, reply(Some(3), Some(JsonValue::Number(1.0)), None)), CallStep::Done(JsonValue::Number(n)) if n == 1.0));
}

#[test]
fn legacy_reply_steps() {
    assert!(matches!(legacy_call_step("1", obj(vec![("msg", s("result")), ("id", s("2"))])), LegacyStep::Ignore));
    assert!(matches!(legacy_call_step("1", obj(vec![("msg", s("added")), ("id", s("1"))])), LegacyStep::Ignore));
    assert!(matches!(
        legacy_call_step("1", obj(vec![("msg", s("result")), ("id", s("1")), ("error", s("denied")), ("result", JsonValue::Bool(true))])),
        LegacyStep::Failed(JsonValue::String(e)) if e == "denied"
    ));
    assert!(matches!(
        legacy_call_step("1", obj(vec![("msg", s("result")), ("id", s("1")), ("error", JsonValue::Null)])),
        LegacyStep::Failed(JsonValue::Null)
    ));
    assert!(matches!(legacy_call_step("1", obj(vec![("msg", s("result")), ("id", s("1"))])), LegacyStep::NoResult));
    assert!(matches!(
        legacy_call_step("1", obj(vec![("id", s("1")), ("msg", s("result")), ("result", JsonValue::Bool(true))])),
        LegacyStep::Done(JsonValue::Bool(true))
    ));
    assert_eq!(legacy_connect_step(&obj(vec![("msg", s("connected"))])), HandshakeStep::Connected);
    assert_eq!(legacy_connect_step(&obj(vec![("msg", s("failed"))])), HandshakeStep::Rejected);
    assert_eq!(legacy_connect_step(&obj(vec![("msg", s("ping"))])), HandshakeStep::Ignore);
    assert_eq!(legacy_connect_step(&JsonValue::<f64>::Null), HandshakeStep::Ignore);
}

#[test]
fn legacy_payloads() {
    match legacy_connect_payload::<f64>() {
        JsonValue::Object(fields) => {
            let keys: Vec<&str> = fields.iter().map(|f| f.0.as_str()).collect();
            assert_eq!(keys, vec!["msg", "version", "support"]);
            assert!(matches!(&fields[0].1, JsonValue::String(v) if v == "connect"));
        }
        _ => panic!("not an object"),
    }
    match legacy_call_payload("disk.temperatures", "7", JsonValue::<f64>::Bool(false)) {
        JsonValue::Object(fields) => {
            let keys: Vec<&str> = fields.iter().map(|f| f.0.as_str()).collect();
            assert_eq!(keys, vec!["msg", "method", "id", "params"]);
            assert!(matches!(&fields[1].1, JsonValue::String(v) if v == "disk.temperatures"));
            assert!(matches!(&fields[2].1, JsonValue::String(v) if v == "7"));
            assert!(matches!(&fields[3].1, JsonValue::Bool(false)));
        }
        _ => panic!("not an object"),
    }
}

#[test]
fn login_results() {
    assert!(login_succeeded(&JsonValue::<f64>::Bool(true)));
    assert!(!login_succeeded(&JsonValue::<f64>::Bool(false)));
    assert!(!login_succeeded(&s("true")));
    assert!(!login_succeeded(&obj(vec![("response_type", s("SUCCESS"))])));
}

#[test]
fn json_rpc_requests() {
    let mut next_id: u64 = 1;
    assert_eq!(next_request_id(&mut next_id), 1);
    assert_eq!(next_request_id(&mut next_id), 2);
    assert_eq!(next_id, 3);
    let r = rpc_request(7, "auth.login_with_api_key", JsonValue::<f64>::Array(vec![s("key")]));
    assert_eq!(r.jsonrpc, "2.0");
    assert_eq!(r.id, 7);
    assert_eq!(r.method, "auth.login_with_api_key");
    assert!(matches!(&r.params, JsonValue::Array(items) if items.len() == 1));
}

#[test]
fn client_clones() {
    let client = TrueNasClient::new(config("nas"), Duration::from_secs(3));
    let copy = client.clone();
    assert_eq!(copy.timeout(), Duration::from_secs(3));
    assert_eq!(copy.websocket_url(), client.websocket_url());
}

#[test]
fn frames_to_text() {
    assert!(matches!(message_to_text(WsFrame::Text("hi".to_string())), Ok(Some(t)) if t == "hi"));
    assert!(matches!(message_to_text(WsFrame::Binary("grüß".as_bytes().to_vec())), Ok(Some(t)) if t == "grüß"));
    assert!(matches!(message_to_text(WsFrame::Binary(vec![0xff, 0x41])), Err(FrameError::InvalidUtf8)));
    assert!(matches!(message_to_text(WsFrame::Close(None)), Err(FrameError::Closed(None))));
    assert!(matches!(
        message_to_text(WsFrame::Close(Some((1008, "policy".to_string())))),
        Err(FrameError::Closed(Some((1008, r)))) if r == "policy"
    ));
    assert!(matches!(message_to_text(WsFrame::Other), Ok(None)));
}

#[test]
fn connect_error_texts() {
    assert_eq!(
        describe_connect_error(
            "ws://nas/api/current",
            ConnectFailure::Http { status: "302 Found".to_string(), location: Some("https://nas/".to_string()) }
        ),
        "connect TrueNAS WebSocket: ws://nas/api/current: HTTP 302 Found; Location: https://nas/"
    );
    assert_eq!(
        describe_connect_error("ws://nas", ConnectFailure::Http { status: "404 Not Found".to_string(), location: None }),
        "connect TrueNAS WebSocket: ws://nas: HTTP 404 Not Found; Location: <missing>"
    );
    assert_eq!(
        describe_connect_error("ws://nas", ConnectFailure::Other("IO error: refused".to_string())),
        "connect TrueNAS WebSocket: ws://nas: IO error: refused"
    );
}

#[test]
fn login_steps() {
    assert_eq!(login_next::<f64>(true, &LoginEvent::Started), LoginAction::SendHandshake);
    assert_eq!(login_next::<f64>(false, &LoginEvent::Started), LoginAction::SendLogin);
    assert_eq!(login_next::<f64>(true, &LoginEvent::HandshakeDone), LoginAction::SendLogin);
    assert_eq!(login_next(false, &LoginEvent::Replied(JsonValue::<f64>::Bool(true))), LoginAction::LoggedIn);
    assert_eq!(
        login_next(false, &LoginEvent::Replied(JsonValue::<f64>::Bool(false))),
        LoginAction::Failed(LoginFailure::AuthFailed)
    );
    assert_eq!(
        login_next(true, &LoginEvent::Replied(JsonValue::<f64>::Null)),
        LoginAction::Failed(LoginFailure::LegacyAuthFailed)
    );
    assert_eq!(LoginFailure::AuthFailed.message(), "TrueNAS API key authentication failed");
    assert_eq!(LoginFailure::LegacyAuthFailed.message(), "TrueNAS legacy API key authentication failed");
}

#[test]
fn retries_once_with_object_options() {
    let err = "disk.temperatures failed: options: A dict was expected (22)";
    assert!(retry_with_object_options(false, err));
    assert!(!retry_with_object_options(true, err));
    assert!(!retry_with_object_options(false, "timeout"));
    assert_eq!(TemperaturesError::NotObject.message(), "disk.temperatures returned non-object result");
    assert_eq!(TemperaturesError::NoUsableTemperatures.message(), "TrueNAS returned no usable disk temperatures");
}
