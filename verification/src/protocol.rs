//! The protocol of the control socket: JSON-RPC 2.0 requests that carry a
//! protocol version, responses, and typed errors.

use vstd::prelude::*;

use crate::json;
use crate::json::Value;
use crate::text::same_text;

verus! {

/// The protocol version that every request carries.
pub const PROTOCOL_VERSION: &'static str = "1.0";

/// The version of JSON-RPC that every message carries.
pub const JSONRPC_VERSION: &'static str = "2.0";

// -- errors -------------------------------------------------------------------

/// Why a request failed.
#[derive(Debug, Clone, Copy, PartialEq, Eq, Structural)]
pub enum RpcError {
    /// The request was not valid JSON.
    ParseError,
    /// The request was valid JSON but not a request.
    InvalidRequest,
    /// There is no such method.
    MethodNotFound,
    /// A parameter was missing, of the wrong type, or not valid.
    InvalidParams,
    /// There is no such object.
    NotFound,
    /// The object already exists with the same parameters.
    AlreadyExists,
    /// The object exists with other parameters.
    Conflict,
    /// The daemon failed.
    Internal,
}

/// The code of an error.
pub open spec fn code_text(e: RpcError) -> Seq<char> {
    match e {
        RpcError::ParseError => "parse_error"@,
        RpcError::InvalidRequest => "invalid_request"@,
        RpcError::MethodNotFound => "method_not_found"@,
        RpcError::InvalidParams => "invalid_params"@,
        RpcError::NotFound => "not_found"@,
        RpcError::AlreadyExists => "already_exists"@,
        RpcError::Conflict => "conflict"@,
        RpcError::Internal => "internal"@,
    }
}

/// An error in words.
pub open spec fn message_text(e: RpcError) -> Seq<char> {
    match e {
        RpcError::ParseError => "invalid JSON payload"@,
        RpcError::InvalidRequest => "request is not a valid JSON-RPC request"@,
        RpcError::MethodNotFound => "unknown method"@,
        RpcError::InvalidParams => "invalid parameters"@,
        RpcError::NotFound => "object not found"@,
        RpcError::AlreadyExists => "object already exists"@,
        RpcError::Conflict => "object exists with conflicting parameters"@,
        RpcError::Internal => "internal server error"@,
    }
}

impl RpcError {
    /// The code of the error, for machines.
    pub fn code(&self) -> (r: &'static str)
        ensures
            r@ == code_text(*self),
    {
        match self {
            RpcError::ParseError => "parse_error",
            RpcError::InvalidRequest => "invalid_request",
            RpcError::MethodNotFound => "method_not_found",
            RpcError::InvalidParams => "invalid_params",
            RpcError::NotFound => "not_found",
            RpcError::AlreadyExists => "already_exists",
            RpcError::Conflict => "conflict",
            RpcError::Internal => "internal",
        }
    }

    /// The error in words.
    pub fn message(&self) -> (r: String)
        ensures
            r@ == message_text(*self),
            r@.len() > 0,
    {
        proof {
            reveal_strlit("invalid JSON payload");
            reveal_strlit("request is not a valid JSON-RPC request");
            reveal_strlit("unknown method");
            reveal_strlit("invalid parameters");
            reveal_strlit("object not found");
            reveal_strlit("object already exists");
            reveal_strlit("object exists with conflicting parameters");
            reveal_strlit("internal server error");
        }
        match self {
            RpcError::ParseError => "invalid JSON payload".to_owned(),
            RpcError::InvalidRequest => "request is not a valid JSON-RPC request".to_owned(),
            RpcError::MethodNotFound => "unknown method".to_owned(),
            RpcError::InvalidParams => "invalid parameters".to_owned(),
            RpcError::NotFound => "object not found".to_owned(),
            RpcError::AlreadyExists => "object already exists".to_owned(),
            RpcError::Conflict => "object exists with conflicting parameters".to_owned(),
            RpcError::Internal => "internal server error".to_owned(),
        }
    }

    /// The error with the given code.
    pub fn from_code(code: &str) -> (r: Option<RpcError>)
        ensures
            match r {
                Some(e) => code@ == code_text(e),
                None => forall|e: RpcError| #[trigger] code_text(e) != code@,
            },
    {
        if same_text(code, "parse_error") {
            Some(RpcError::ParseError)
        } else if same_text(code, "invalid_request") {
            Some(RpcError::InvalidRequest)
        } else if same_text(code, "method_not_found") {
            Some(RpcError::MethodNotFound)
        } else if same_text(code, "invalid_params") {
            Some(RpcError::InvalidParams)
        } else if same_text(code, "not_found") {
            Some(RpcError::NotFound)
        } else if same_text(code, "already_exists") {
            Some(RpcError::AlreadyExists)
        } else if same_text(code, "conflict") {
            Some(RpcError::Conflict)
        } else if same_text(code, "internal") {
            Some(RpcError::Internal)
        } else {
            None
        }
    }
}

/// No two errors have one code: the code of an error tells the error.
pub proof fn law_codes_are_distinct(e: RpcError, f: RpcError)
    ensures
        code_text(e) == code_text(f) <==> e == f,
{
    reveal_strlit("parse_error");
    reveal_strlit("invalid_request");
    reveal_strlit("method_not_found");
    reveal_strlit("invalid_params");
    reveal_strlit("not_found");
    reveal_strlit("already_exists");
    reveal_strlit("conflict");
    reveal_strlit("internal");
    assert("parse_error"@.len() == 11 && "invalid_request"@.len() == 15
        && "method_not_found"@.len() == 16 && "invalid_params"@.len() == 14 && "not_found"@.len()
        == 9 && "already_exists"@.len() == 14 && "conflict"@.len() == 8 && "internal"@.len() == 8);
    assert("invalid_params"@[0] == 'i' && "already_exists"@[0] == 'a' && "conflict"@[0] == 'c'
        && "internal"@[0] == 'i');
}

// -- requests -----------------------------------------------------------------

/// A request.
#[derive(Debug, Clone, PartialEq, Eq)]
pub struct Request {
    pub jsonrpc: String,
    pub version: String,
    pub method: String,
    pub params: Option<Value>,
    pub id: Value,
}

/// What JSON holds of a request: each of the fields that a request has, where
/// it is there and not null. JSON that is not that of a request has none.
#[derive(Debug)]
pub struct RawRequest {
    pub jsonrpc: Option<String>,
    pub version: Option<String>,
    pub method: Option<String>,
    pub params: Option<Value>,
    pub id: Option<Value>,
}

/// Why what was sent, which is none where it was not JSON, is no request; none
/// where it is one.
///
/// In this order: it was not JSON; the version of JSON-RPC is missing or
/// another; the protocol version is missing; it is another; the method or the
/// identifier is missing.
pub open spec fn request_error(raw: Option<RawRequest>) -> Option<RpcError> {
    match raw {
        None => Some(RpcError::ParseError),
        Some(raw) => if !(raw.jsonrpc is Some && raw.jsonrpc->0@ == JSONRPC_VERSION@) {
            Some(RpcError::InvalidRequest)
        } else if raw.version is None {
            Some(RpcError::InvalidRequest)
        } else if raw.version->0@ != PROTOCOL_VERSION@ {
            Some(RpcError::InvalidParams)
        } else if raw.method is None || raw.id is None {
            Some(RpcError::InvalidRequest)
        } else {
            None
        },
    }
}

impl Request {
    /// A request for `method`, with the versions filled in.
    pub fn new(method: &str, params: Option<Value>, id: Value) -> (r: Request)
        ensures
            r.jsonrpc@ == JSONRPC_VERSION@,
            r.version@ == PROTOCOL_VERSION@,
            r.method@ == method@,
            r.params == params,
            r.id == id,
    {
        Request {
            jsonrpc: JSONRPC_VERSION.to_owned(),
            version: PROTOCOL_VERSION.to_owned(),
            method: method.to_owned(),
            params,
            id,
        }
    }

    /// The request in the JSON `raw`, which is none where what was sent was not
    /// JSON.
    pub fn parse(raw: Option<RawRequest>) -> (r: Result<Request, RpcError>)
        ensures
            match r {
                Ok(q) => {
                    &&& request_error(raw) is None
                    &&& raw->0.jsonrpc == Some(q.jsonrpc)
                    &&& raw->0.version == Some(q.version)
                    &&& raw->0.method == Some(q.method)
                    &&& raw->0.params == q.params
                    &&& raw->0.id == Some(q.id)
                },
                Err(e) => request_error(raw) == Some(e),
            },
    {
        let raw = match raw {
            Some(raw) => raw,
            None => {
                return Err(RpcError::ParseError);
            },
        };
        let jsonrpc = match raw.jsonrpc {
            Some(v) => v,
            None => {
                return Err(RpcError::InvalidRequest);
            },
        };
        if !same_text(jsonrpc.as_str(), JSONRPC_VERSION) {
            return Err(RpcError::InvalidRequest);
        }
        let version = match raw.version {
            Some(v) => v,
            None => {
                return Err(RpcError::InvalidRequest);
            },
        };
        if !same_text(version.as_str(), PROTOCOL_VERSION) {
            return Err(RpcError::InvalidParams);
        }
        let method = match raw.method {
            Some(m) => m,
            None => {
                return Err(RpcError::InvalidRequest);
            },
        };
        let id = match raw.id {
            Some(id) => id,
            None => {
                return Err(RpcError::InvalidRequest);
            },
        };
        Ok(Request { jsonrpc, version, method, params: raw.params, id })
    }

    /// The request as JSON.
    pub fn to_value(&self) -> (r: Value)
        ensures
            r@ == request_json(*self),
    {
        broadcast use json::lemma_value_view;

        let mut m = Value::no_members();
        Value::put(&mut m, "jsonrpc", Value::String(self.jsonrpc.clone()));
        Value::put(&mut m, "version", Value::String(self.version.clone()));
        Value::put(&mut m, "method", Value::String(self.method.clone()));
        let params = match &self.params {
            Some(p) => p.clone(),
            None => Value::Null,
        };
        Value::put(&mut m, "params", params);
        Value::put(&mut m, "id", self.id.clone());
        Value::object(m)
    }
}

/// The JSON of a request: all fields are there, with null for parameters that
/// are not given.
pub open spec fn request_json(q: Request) -> json::Json {
    json::Json::Object(
        Map::<Seq<char>, json::Json>::empty().insert(
            "jsonrpc"@,
            json::Json::String(q.jsonrpc@),
        ).insert("version"@, json::Json::String(q.version@)).insert(
            "method"@,
            json::Json::String(q.method@),
        ).insert(
            "params"@,
            match q.params {
                Some(p) => p@,
                None => json::Json::Null,
            },
        ).insert("id"@, q.id@),
    )
}

/// A request with another protocol version, or without one, is never accepted.
pub proof fn law_version_is_guarded(raw: RawRequest)
    requires
        !(raw.version is Some && raw.version->0@ == PROTOCOL_VERSION@),
    ensures
        request_error(Some(raw)) is Some,
        raw.jsonrpc is Some && raw.jsonrpc->0@ == JSONRPC_VERSION@ && raw.version is Some
            ==> request_error(Some(raw)) == Some(RpcError::InvalidParams),
{
}

/// What [`Request::new`] makes is accepted.
pub proof fn law_made_requests_are_accepted(q: Request)
    requires
        q.jsonrpc@ == JSONRPC_VERSION@,
        q.version@ == PROTOCOL_VERSION@,
    ensures
        request_error(
            Some(
                RawRequest {
                    jsonrpc: Some(q.jsonrpc),
                    version: Some(q.version),
                    method: Some(q.method),
                    params: q.params,
                    id: Some(q.id),
                },
            ),
        ) is None,
{
}

// -- responses ----------------------------------------------------------------

/// A response: a result or an error, and the identifier of the request.
#[derive(Debug, Clone, PartialEq, Eq)]
pub struct Response {
    pub jsonrpc: String,
    pub result: Option<Value>,
    pub error: Option<RpcError>,
    pub id: Value,
}

/// What a [`Response`] holds.
pub struct ResponseView {
    pub jsonrpc: Seq<char>,
    pub result: Option<json::Json>,
    pub error: Option<RpcError>,
    pub id: json::Json,
}

impl View for Response {
    type V = ResponseView;

    open spec fn view(&self) -> ResponseView {
        ResponseView {
            jsonrpc: self.jsonrpc@,
            result: match self.result {
                Some(v) => Some(v@),
                None => None,
            },
            error: self.error,
            id: self.id@,
        }
    }
}

impl ResponseView {
    /// Whether exactly one of the result and the error is there.
    pub open spec fn wf(self) -> bool {
        self.result is Some <==> self.error is None
    }
}

/// The response that carries `outcome` for the request `id`.
pub open spec fn response_of(id: json::Json, outcome: Result<json::Json, RpcError>) -> ResponseView {
    ResponseView {
        jsonrpc: JSONRPC_VERSION@,
        result: match outcome {
            Ok(v) => Some(v),
            Err(_) => None,
        },
        error: match outcome {
            Ok(_) => None,
            Err(e) => Some(e),
        },
        id,
    }
}

/// The JSON of an error.
pub open spec fn error_json(e: RpcError) -> json::Json {
    json::Json::Object(
        Map::<Seq<char>, json::Json>::empty().insert(
            "code"@,
            json::Json::String(code_text(e)),
        ).insert("message"@, json::Json::String(message_text(e))),
    )
}

/// The JSON of a response: the result and the error are there where the
/// response has them.
pub open spec fn response_json(v: ResponseView) -> json::Json {
    let base = Map::<Seq<char>, json::Json>::empty().insert(
        "jsonrpc"@,
        json::Json::String(v.jsonrpc),
    ).insert("id"@, v.id);
    let with_result = match v.result {
        Some(r) => base.insert("result"@, r),
        None => base,
    };
    json::Json::Object(
        match v.error {
            Some(e) => with_result.insert("error"@, error_json(e)),
            None => with_result,
        },
    )
}

impl Response {
    /// The response that carries `result` for the request `id`.
    pub fn ok(id: Value, result: Value) -> (r: Response)
        ensures
            r@ == response_of(id@, Ok(result@)),
            r@.wf(),
    {
        Response { jsonrpc: JSONRPC_VERSION.to_owned(), result: Some(result), error: None, id }
    }

    /// The response that carries `error` for the request `id`.
    pub fn err(id: Value, error: RpcError) -> (r: Response)
        ensures
            r@ == response_of(id@, Err(error)),
            r@.wf(),
    {
        Response { jsonrpc: JSONRPC_VERSION.to_owned(), result: None, error: Some(error), id }
    }

    /// The response as JSON.
    pub fn to_value(&self) -> (r: Value)
        ensures
            r@ == response_json(self@),
    {
        broadcast use json::lemma_value_view;

        let mut m = Value::no_members();
        Value::put(&mut m, "jsonrpc", Value::String(self.jsonrpc.clone()));
        Value::put(&mut m, "id", self.id.clone());
        if let Some(result) = &self.result {
            Value::put(&mut m, "result", result.clone());
        }
        if let Some(error) = &self.error {
            let mut e = Value::no_members();
            Value::put(&mut e, "code", Value::String(error.code().to_owned()));
            Value::put(&mut e, "message", Value::String(error.message()));
            Value::put(&mut m, "error", Value::object(e));
        }
        Value::object(m)
    }

    /// The response in the JSON `v`. A null result is a result; a null error
    /// is none. The message of an error is not read.
    pub fn from_value(v: &Value) -> (r: Option<Response>)
        ensures
            match r {
                Some(p) => response_in(v@) == Some(p@),
                None => response_in(v@) is None,
            },
    {
        broadcast use json::lemma_value_view;

        let jsonrpc = match v.get("jsonrpc") {
            Some(j) => match j.as_str() {
                Some(s) => s.to_owned(),
                None => {
                    return None;
                },
            },
            None => {
                return None;
            },
        };
        let id = match v.get("id") {
            Some(id) => id.clone(),
            None => {
                return None;
            },
        };
        let result = match v.get("result") {
            Some(x) => Some(x.clone()),
            None => None,
        };
        let error = match v.get("error") {
            None => None,
            Some(e) => {
                if let Value::Null = e {
                    None
                } else {
                    let code = match e.get("code") {
                        Some(c) => match c.as_str() {
                            Some(s) => s,
                            None => {
                                return None;
                            },
                        },
                        None => {
                            return None;
                        },
                    };
                    match RpcError::from_code(code) {
                        Some(known) => {
                            proof {
                                lemma_error_with_code(code@, known);
                            }
                            Some(known)
                        },
                        None => {
                            return None;
                        },
                    }
                }
            },
        };
        Some(Response { jsonrpc, result, error, id })
    }
}

/// The error with the code `code`, if there is one.
pub open spec fn error_with_code(code: Seq<char>) -> Option<RpcError> {
    if exists|e: RpcError| #[trigger] code_text(e) == code {
        Some(choose|e: RpcError| #[trigger] code_text(e) == code)
    } else {
        None
    }
}

proof fn lemma_error_with_code(code: Seq<char>, e: RpcError)
    requires
        code == code_text(e),
    ensures
        error_with_code(code) == Some(e),
{
    law_codes_are_distinct(choose|f: RpcError| #[trigger] code_text(f) == code, e);
}

/// The text of a JSON string.
pub open spec fn text_in(j: Option<json::Json>) -> Option<Seq<char>> {
    match j {
        Some(json::Json::String(s)) => Some(s),
        _ => None,
    }
}

/// The response in the JSON `j`, if it is one.
pub open spec fn response_in(j: json::Json) -> Option<ResponseView> {
    let version = text_in(json::member(j, "jsonrpc"@));
    let id = json::member(j, "id"@);
    let error = json::member(j, "error"@);
    let no_error = error is None || error == Some(json::Json::Null);
    let code = text_in(json::member(error->0, "code"@));
    if version is None || id is None {
        None
    } else if no_error {
        Some(
            ResponseView {
                jsonrpc: version->0,
                result: json::member(j, "result"@),
                error: None,
                id: id->0,
            },
        )
    } else if code is None || error_with_code(code->0) is None {
        None
    } else {
        Some(
            ResponseView {
                jsonrpc: version->0,
                result: json::member(j, "result"@),
                error: error_with_code(code->0),
                id: id->0,
            },
        )
    }
}

/// A response written as JSON reads back as the same response.
pub proof fn law_response_round_trip(v: ResponseView)
    ensures
        response_in(response_json(v)) == Some(v),
{
    reveal_strlit("jsonrpc");
    reveal_strlit("id");
    reveal_strlit("result");
    reveal_strlit("error");
    reveal_strlit("code");
    reveal_strlit("message");
    assert("jsonrpc"@.len() == 7 && "id"@.len() == 2 && "result"@.len() == 6 && "error"@.len() == 5
        && "code"@.len() == 4 && "message"@.len() == 7);
    assert("jsonrpc"@[0] == 'j' && "message"@[0] == 'm');
    if let Some(e) = v.error {
        lemma_error_with_code(code_text(e), e);
    }
}

/// Exactly one of a result and an error is in the JSON of a response that was
/// made for an outcome.
pub proof fn law_result_or_error(id: json::Json, outcome: Result<json::Json, RpcError>)
    ensures
        json::member(response_json(response_of(id, outcome)), "result"@) is Some <==> outcome is Ok,
        json::member(response_json(response_of(id, outcome)), "error"@) is Some <==> outcome is Err,
        json::member(response_json(response_of(id, outcome)), "id"@) == Some(id),
{
    reveal_strlit("jsonrpc");
    reveal_strlit("id");
    reveal_strlit("result");
    reveal_strlit("error");
    assert("jsonrpc"@.len() == 7 && "id"@.len() == 2 && "result"@.len() == 6 && "error"@.len()
        == 5);
}

// -- laws on words ------------------------------------------------------------

/// Every request with the two versions, a method and an identifier is accepted,
/// whatever these and its parameters are, and nothing else is: what is not JSON
/// is a parse error, another protocol version a wrong parameter, and all else
/// no request.
pub proof fn law_what_is_accepted(raw: RawRequest)
    ensures
        request_error(None) == Some(RpcError::ParseError),
        request_error(Some(raw)) == (if raw.jsonrpc is Some && raw.jsonrpc->0@ == "2.0"@
            && raw.version is Some {
            if raw.version->0@ != "1.0"@ {
                Some(RpcError::InvalidParams)
            } else if raw.method is Some && raw.id is Some {
                None
            } else {
                Some(RpcError::InvalidRequest)
            }
        } else {
            Some(RpcError::InvalidRequest)
        }),
{
}

/// A response carries the version of JSON-RPC, the identifier, and either the
/// result as it is or the code and the words of the error.
pub proof fn law_responses_carry_the_outcome(id: json::Json, v: json::Json, e: RpcError)
    ensures
        (response_json(response_of(id, Ok(v))) matches json::Json::Object(m) && m.contains_key(
            "id"@,
        ) && m["id"@] == id && m.contains_key("result"@) && m["result"@] == v && m["jsonrpc"@]
            == json::Json::String("2.0"@) && !m.contains_key("error"@)),
        (response_json(response_of(id, Err(e))) matches json::Json::Object(m) && m.contains_key(
            "id"@,
        ) && m["id"@] == id && !m.contains_key("result"@) && m["jsonrpc"@] == json::Json::String(
            "2.0"@,
        ) && m.contains_key("error"@) && (m["error"@] matches json::Json::Object(x) && x["code"@]
            == json::Json::String(code_text(e)) && x["message"@] == json::Json::String(
            message_text(e),
        ))),
{
    reveal_strlit("jsonrpc");
    reveal_strlit("id");
    reveal_strlit("result");
    reveal_strlit("error");
    reveal_strlit("code");
    reveal_strlit("message");
    assert("jsonrpc"@.len() == 7 && "id"@.len() == 2 && "result"@.len() == 6 && "error"@.len() == 5
        && "code"@.len() == 4 && "message"@.len() == 7);
}

/// The codes of the errors.
pub proof fn law_codes_of_errors()
    ensures
        code_text(RpcError::ParseError) == "parse_error"@,
        code_text(RpcError::InvalidRequest) == "invalid_request"@,
        code_text(RpcError::MethodNotFound) == "method_not_found"@,
        code_text(RpcError::InvalidParams) == "invalid_params"@,
        code_text(RpcError::NotFound) == "not_found"@,
        code_text(RpcError::AlreadyExists) == "already_exists"@,
        code_text(RpcError::Conflict) == "conflict"@,
        code_text(RpcError::Internal) == "internal"@,
{
}

/// A request that is written as JSON holds what it is made of.
pub proof fn law_requests_are_written(q: Request)
    ensures
        (request_json(q) matches json::Json::Object(m) && m["jsonrpc"@] == json::Json::String(
            q.jsonrpc@,
        ) && m["version"@] == json::Json::String(q.version@) && m["method"@] == json::Json::String(
            q.method@,
        ) && m["id"@] == q.id@ && m["params"@] == (match q.params {
            Some(p) => p@,
            None => json::Json::Null,
        })),
{
    reveal_strlit("jsonrpc");
    reveal_strlit("version");
    reveal_strlit("method");
    reveal_strlit("params");
    reveal_strlit("id");
    assert("jsonrpc"@.len() == 7 && "version"@.len() == 7 && "method"@.len() == 6 && "params"@.len()
        == 6 && "id"@.len() == 2);
    assert("jsonrpc"@[0] == 'j' && "version"@[0] == 'v' && "method"@[0] == 'm' && "params"@[0]
        == 'p');
}

} // verus!
