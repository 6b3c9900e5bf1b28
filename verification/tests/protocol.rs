//! Requests, responses and errors.

use k8netd::json::{Number, Value};
use k8netd::names::NameMap;
use k8netd::protocol::{RawRequest, Request, Response, RpcError, PROTOCOL_VERSION};
use serde_json::Value as Json;

fn string(s: &str) -> Value {
    Value::String(s.to_string())
}

fn object(pairs: &[(&str, Value)]) -> Value {
    let mut m = NameMap::new();
    for (k, v) in pairs {
        m.insert(k.to_string(), v.clone());
    }
    Value::object(m)
}

/// The value as `serde_json` has it.
fn to_json(v: &Value) -> Json {
    match v {
        Value::Null => Json::Null,
        Value::Bool(b) => Json::Bool(*b),
        Value::Number(Number::PosInt(n)) => Json::from(*n),
        Value::Number(Number::NegInt(n)) => Json::from(*n),
        Value::Number(Number::Float { bits }) => Json::from(f64::from_bits(*bits)),
        Value::String(s) => Json::String(s.clone()),
        Value::Array(a) => Json::Array(a.iter().map(to_json).collect()),
        Value::Object(m) => {
            let mut out = serde_json::Map::new();
            for k in m.keys() {
                out.insert(k.clone(), to_json(m.get(k).unwrap()));
            }
            Json::Object(out)
        }
    }
}

/// What `serde_json` has, as a value.
fn from_json(j: &Json) -> Value {
    match j {
        Json::Null => Value::Null,
        Json::Bool(b) => Value::Bool(*b),
        Json::Number(n) => Value::Number(match (n.as_u64(), n.as_i64()) {
            (Some(u), _) => Number::PosInt(u),
            (None, Some(i)) => Number::NegInt(i),
            _ => Number::Float {
                bits: n.as_f64().unwrap().to_bits(),
            },
        }),
        Json::String(s) => Value::String(s.clone()),
        Json::Array(a) => Value::Array(a.iter().map(from_json).collect()),
        Json::Object(m) => {
            let mut out = NameMap::new();
            for (k, v) in m {
                out.insert(k.clone(), from_json(v));
            }
            Value::object(out)
        }
    }
}

fn text_of(v: &Value) -> String {
    to_json(v).to_string()
}

fn value_of(text: &str) -> Value {
    from_json(&serde_json::from_str(text).unwrap())
}

/// The fields of the request in `text`; none where it is not JSON. JSON that is
/// no object has no fields.
fn raw_of(text: &str) -> Option<RawRequest> {
    let j: Json = serde_json::from_str(text).ok()?;
    let field = |name: &str| j.get(name).filter(|v| !v.is_null());
    let word = |name: &str| field(name).map(|v| v.as_str().unwrap().to_string());
    Some(RawRequest {
        jsonrpc: word("jsonrpc"),
        version: word("version"),
        method: word("method"),
        params: field("params").map(from_json),
        id: field("id").map(from_json),
    })
}

#[test]
fn json_that_is_no_request_is_an_invalid_one() {
    for text in ["42", "null", "[]", "{}", "\"x\""] {
        assert_eq!(Request::parse(raw_of(text)), Err(RpcError::InvalidRequest), "{text}");
    }
    assert_eq!(Request::parse(raw_of("4 2")), Err(RpcError::ParseError));
}

#[test]
fn request_round_trip_object_params() {
    let req = Request::new(
        "CreateNetwork",
        Some(object(&[
            ("name", string("lab")),
            ("cidr", string("192.168.124.0/24")),
        ])),
        string("1"),
    );
    let s = text_of(&req.to_value());
    let restored: Request = Request::parse(raw_of(&s)).expect("serialized request must parse");
    assert_eq!(req, restored);
}

#[test]
fn request_round_trip_null_params() {
    let req = Request::new("GetNetwork", None, string("1"));
    let s = text_of(&req.to_value());
    let restored: Request = Request::parse(raw_of(&s)).expect("serialized request must parse");
    assert_eq!(req, restored);
}

#[test]
fn request_serializes_full_envelope() {
    let req = Request::new(
        "CreateNetwork",
        Some(object(&[
            ("name", string("lab")),
            ("cidr", string("192.168.124.0/24")),
        ])),
        string("1"),
    );
    let v = to_json(&req.to_value());
    assert_eq!(v["jsonrpc"], "2.0");
    assert_eq!(v["version"].as_str(), Some(PROTOCOL_VERSION));
    assert_eq!(v["method"], "CreateNetwork");
    assert_eq!(v["params"]["name"], "lab");
    assert_eq!(v["params"]["cidr"], "192.168.124.0/24");
    assert_eq!(v["params"].as_object().unwrap().len(), 2);
    assert_eq!(v["id"], "1");
}

#[test]
fn response_round_trip_result() {
    let resp = Response::ok(string("1"), object(&[("name", string("lab"))]));
    let s = text_of(&resp.to_value());
    let restored = Response::from_value(&value_of(&s)).unwrap();
    assert_eq!(resp, restored);
}

#[test]
fn response_round_trip_null_result() {
    let resp = Response::ok(string("1"), Value::Null);
    let s = text_of(&resp.to_value());
    let restored = Response::from_value(&value_of(&s)).unwrap();
    assert_eq!(resp, restored);
    assert_eq!(restored.result, Some(Value::Null));
}

#[test]
fn error_codes_round_trip_all_five() {
    let cases = [
        (RpcError::NotFound, "not_found"),
        (RpcError::AlreadyExists, "already_exists"),
        (RpcError::InvalidParams, "invalid_params"),
        (RpcError::Conflict, "conflict"),
        (RpcError::Internal, "internal"),
    ];
    for (err, code) in cases {
        let v = to_json(&Response::err(string("1"), err).to_value());
        assert_eq!(v["error"]["code"], code);
        assert!(
            v["error"]["message"].as_str().is_some_and(|m| !m.is_empty()),
            "error {code} must carry a non-empty message"
        );
        let restored = Response::from_value(&from_json(&v)).unwrap();
        assert_eq!(restored.error, Some(err));
        assert_eq!(RpcError::from_code(code), Some(err));
    }
}

#[test]
fn request_accepts_current_version() {
    let text = format!(
        r#"{{"jsonrpc":"2.0","version":"{PROTOCOL_VERSION}","method":"GetNetwork","params":null,"id":"1"}}"#
    );
    let req = Request::parse(raw_of(&text)).expect("current-version request must parse");
    assert_eq!(req, Request::new("GetNetwork", None, string("1")));
}

#[test]
fn request_rejects_missing_version() {
    let text = r#"{"jsonrpc":"2.0","method":"GetNetwork","params":null,"id":"1"}"#;
    assert!(Request::parse(raw_of(text)).is_err());
    assert_eq!(Request::parse(raw_of(text)), Err(RpcError::InvalidRequest));
}

#[test]
fn request_rejects_wrong_version() {
    let text = r#"{"jsonrpc":"2.0","version":"9.9","method":"GetNetwork","params":null,"id":"1"}"#;
    let err = Request::parse(raw_of(text)).unwrap_err();
    assert_eq!(err.code(), "invalid_params");
}

#[test]
fn error_response_shape() {
    let resp = Response::err(string("1"), RpcError::NotFound);
    let v = to_json(&resp.to_value());
    assert_eq!(v["jsonrpc"], "2.0");
    assert_eq!(v["id"], "1");
    assert_eq!(v["error"]["code"], "not_found");
    assert!(
        v["error"]["message"].as_str().is_some_and(|m| !m.is_empty()),
        "error object must carry a non-empty message"
    );
    assert!(v.get("result").is_none(), "error response must not carry a result");
}

#[test]
fn response_error_round_trip() {
    let resp = Response::err(string("1"), RpcError::Conflict);
    let s = text_of(&resp.to_value());
    let restored = Response::from_value(&value_of(&s)).unwrap();
    assert_eq!(resp, restored);
}

#[test]
fn error_method_not_found_round_trip() {
    let err = RpcError::MethodNotFound;
    let v = to_json(&Response::err(string("1"), err).to_value());
    assert_eq!(v["error"]["code"], "method_not_found");
    let restored = Response::from_value(&from_json(&v)).unwrap();
    assert_eq!(restored.error, Some(RpcError::MethodNotFound));
}

#[test]
fn request_rejects_malformed_json() {
    let err = Request::parse(raw_of("{not json")).unwrap_err();
    assert_eq!(err.code(), "parse_error");
}

#[test]
fn request_rejects_missing_id() {
    let text = format!(r#"{{"jsonrpc":"2.0","version":"{PROTOCOL_VERSION}","method":"GetNetwork","params":null}}"#);
    assert!(Request::parse(raw_of(&text)).is_err());
}

#[test]
fn request_faults_are_told_in_order() {
    let full = |jsonrpc: Option<&str>, version: Option<&str>, method: Option<&str>, id: Option<Value>| RawRequest {
        jsonrpc: jsonrpc.map(str::to_string),
        version: version.map(str::to_string),
        method: method.map(str::to_string),
        params: None,
        id,
    };
    let id = || Some(string("1"));
    let cases = [
        (full(None, Some("1.0"), Some("m"), id()), RpcError::InvalidRequest),
        (full(Some("1.0"), Some("1.0"), Some("m"), id()), RpcError::InvalidRequest),
        (full(Some("2.0"), None, Some("m"), id()), RpcError::InvalidRequest),
        (full(Some("2.0"), Some("0.9"), None, None), RpcError::InvalidParams),
        (full(Some("2.0"), Some("1.0"), None, id()), RpcError::InvalidRequest),
        (full(Some("2.0"), Some("1.0"), Some("m"), None), RpcError::InvalidRequest),
    ];
    for (raw, e) in cases {
        assert_eq!(Request::parse(Some(raw)), Err(e));
    }
}

#[test]
fn every_error_has_its_code_and_its_words() {
    let cases = [
        (RpcError::ParseError, "parse_error", "invalid JSON payload"),
        (
            RpcError::InvalidRequest,
            "invalid_request",
            "request is not a valid JSON-RPC request",
        ),
        (RpcError::MethodNotFound, "method_not_found", "unknown method"),
        (RpcError::InvalidParams, "invalid_params", "invalid parameters"),
        (RpcError::NotFound, "not_found", "object not found"),
        (RpcError::AlreadyExists, "already_exists", "object already exists"),
        (
            RpcError::Conflict,
            "conflict",
            "object exists with conflicting parameters",
        ),
        (RpcError::Internal, "internal", "internal server error"),
    ];
    for (e, code, words) in cases {
        assert_eq!(e.code(), code);
        assert_eq!(e.message(), words);
        assert_eq!(RpcError::from_code(code), Some(e));
    }
    assert_eq!(RpcError::from_code("nonsense"), None);
}

#[test]
fn what_is_no_response_is_not_read() {
    assert_eq!(Response::from_value(&Value::Null), None);
    assert_eq!(Response::from_value(&value_of(r#"{"jsonrpc":"2.0"}"#)), None);
    assert_eq!(Response::from_value(&value_of(r#"{"id":1}"#)), None);
    assert_eq!(
        Response::from_value(&value_of(r#"{"jsonrpc":"2.0","id":1,"error":{"code":"odd"}}"#)),
        None
    );
    let absent = Response::from_value(&value_of(r#"{"jsonrpc":"2.0","id":1,"error":null}"#)).unwrap();
    assert_eq!(absent.result, None);
    assert_eq!(absent.error, None);
}

#[test]
fn numbers_are_compared_by_what_they_are() {
    let zero = Value::Number(Number::Float { bits: 0f64.to_bits() });
    let minus_zero = Value::Number(Number::Float {
        bits: (-0f64).to_bits(),
    });
    assert_eq!(zero, minus_zero);
    assert_ne!(zero, Value::Number(Number::PosInt(0)));
    assert_eq!(value_of("[1, -1, 1.5]"), value_of("[1,-1,1.5]"));
    assert_ne!(value_of("[1, 2]"), value_of("[2, 1]"));
    assert_ne!(value_of("[1, 2]"), value_of("[1]"));
    assert_ne!(value_of(r#"{"a":1}"#), value_of(r#"{"a":1,"b":2}"#));
    assert_eq!(value_of("7").as_u64(), Some(7));
    assert_eq!(value_of("-7").as_u64(), None);
    assert_eq!(value_of("true"), Value::Bool(true));
}
