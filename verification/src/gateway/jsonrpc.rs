//! JSON-RPC 2.0 envelopes, as far as MCP uses them. A request without an id is
//! a notification.

use vstd::prelude::*;

use crate::json::{Doc, Json};
use crate::name_map::{replica_opt, view_opt};

verus! {

/// Invalid JSON was received.
pub const PARSE_ERROR: i64 = -32700;

/// The JSON sent is not a valid request object.
pub const INVALID_REQUEST: i64 = -32600;

/// The method does not exist.
pub const METHOD_NOT_FOUND: i64 = -32601;

/// Invalid method parameters.
pub const INVALID_PARAMS: i64 = -32602;

/// Implementation-defined server error.
pub const SERVER_ERROR: i64 = -32000;

/// A JSON-RPC request; without an id it is a notification.
#[derive(Debug, PartialEq, Eq)]
pub struct JsonRpcRequest {
    pub jsonrpc: String,
    pub id: Option<Json>,
    pub method: String,
    pub params: Option<Json>,
}

/// A JSON-RPC error object.
#[derive(Debug, PartialEq, Eq)]
pub struct JsonRpcError {
    pub code: i64,
    pub message: String,
    pub data: Option<Json>,
}

/// A JSON-RPC response: either a result or an error.
#[derive(Debug, PartialEq, Eq)]
pub struct JsonRpcResponse {
    pub jsonrpc: String,
    pub id: Option<Json>,
    pub result: Option<Json>,
    pub error: Option<JsonRpcError>,
}

pub struct RequestModel {
    pub jsonrpc: Seq<char>,
    pub id: Option<Doc>,
    pub method: Seq<char>,
    pub params: Option<Doc>,
}

impl View for JsonRpcRequest {
    type V = RequestModel;

    open spec fn view(&self) -> RequestModel {
        RequestModel {
            jsonrpc: self.jsonrpc@,
            id: view_opt(self.id),
            method: self.method@,
            params: view_opt(self.params),
        }
    }
}

pub struct ErrorModel {
    pub code: i64,
    pub message: Seq<char>,
    pub data: Option<Doc>,
}

impl View for JsonRpcError {
    type V = ErrorModel;

    open spec fn view(&self) -> ErrorModel {
        ErrorModel { code: self.code, message: self.message@, data: view_opt(self.data) }
    }
}

pub struct ResponseModel {
    pub jsonrpc: Seq<char>,
    pub id: Option<Doc>,
    pub result: Option<Doc>,
    pub error: Option<ErrorModel>,
}

impl View for JsonRpcResponse {
    type V = ResponseModel;

    open spec fn view(&self) -> ResponseModel {
        ResponseModel {
            jsonrpc: self.jsonrpc@,
            id: view_opt(self.id),
            result: view_opt(self.result),
            error: view_opt(self.error),
        }
    }
}

impl Doc {
    /// This object with one member more where there is a value for it.
    pub open spec fn maybe_with(self, key: Seq<char>, value: Option<Doc>) -> Doc {
        match value {
            Some(v) => self.with(key, v),
            None => self,
        }
    }
}

pub open spec fn error_doc(e: ErrorModel) -> Doc {
    Doc::empty().with("code"@, Doc::Whole(e.code as int)).with("message"@, Doc::Text(e.message)).maybe_with(
        "data"@,
        e.data,
    )
}

/// The object that a response is sent as. What is absent is left out.
pub open spec fn response_doc(m: ResponseModel) -> Doc {
    Doc::empty().with("jsonrpc"@, Doc::Text(m.jsonrpc)).maybe_with("id"@, m.id).maybe_with(
        "result"@,
        m.result,
    ).maybe_with(
        "error"@,
        match m.error {
            Some(e) => Some(error_doc(e)),
            None => None,
        },
    )
}

fn with_opt(j: Json, key: &str, value: Option<Json>) -> (r: Json)
    ensures
        r@ == j@.maybe_with(key@, view_opt(value)),
{
    match value {
        Some(v) => j.with(key, v),
        None => j,
    }
}

impl JsonRpcError {
    fn to_json(&self) -> (r: Json)
        ensures
            r@ == error_doc(self@),
    {
        let body = Json::empty_object().with("code", Json::from_int(self.code)).with("message", Json::from_text(self.message.as_str()));
        with_opt(body, "data", replica_opt(&self.data))
    }
}

impl JsonRpcResponse {
    /// The object that this response is sent as.
    pub fn to_json(&self) -> (r: Json)
        ensures
            r@ == response_doc(self@),
    {
        let head = Json::empty_object().with("jsonrpc", Json::from_text(self.jsonrpc.as_str()));
        let j = with_opt(head, "id", replica_opt(&self.id));
        let j = with_opt(j, "result", replica_opt(&self.result));
        let err = match &self.error {
            Some(e) => Some(e.to_json()),
            None => None,
        };
        with_opt(j, "error", err)
    }
}

/// Build a success response.
pub fn success(id: Option<Json>, result: Json) -> (r: JsonRpcResponse)
    ensures
        r@ == (ResponseModel { jsonrpc: "2.0"@, id: view_opt(id), result: Some(result@), error: None }),
{
    JsonRpcResponse { jsonrpc: "2.0".to_owned(), id, result: Some(result), error: None }
}

/// Build an error response.
pub fn error(id: Option<Json>, code: i64, message: String, data: Option<Json>) -> (r: JsonRpcResponse)
    ensures
        r@ == (ResponseModel {
            jsonrpc: "2.0"@,
            id: view_opt(id),
            result: None,
            error: Some(ErrorModel { code, message: message@, data: view_opt(data) }),
        }),
{
    JsonRpcResponse {
        jsonrpc: "2.0".to_owned(),
        id,
        result: None,
        error: Some(JsonRpcError { code, message, data }),
    }
}

} // verus!
