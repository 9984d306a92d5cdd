//! JSON-RPC as it is spoken with upstream servers, whatever the transport.

use vstd::prelude::*;
#[allow(unused_imports)]
use vstd::string::*;

use crate::json::{json_written, to_value, write_json, Doc, Json};
use crate::name_map::{replicas, view_opt, views, Replica};

verus! {

/// The protocol version that upstream servers are offered.
pub const PROTOCOL_VERSION: &'static str = "2025-06-18";

/// How long a handshake may take, in seconds.
pub const HANDSHAKE_TIMEOUT_SECS: u64 = 30;

/// How long a call may take, in seconds.
pub const CALL_TIMEOUT_SECS: u64 = 120;

/// How long a notification may take, in seconds.
pub const NOTIFY_TIMEOUT_SECS: u64 = 30;

/// A request. Where there are no parameters none are sent: strict servers refuse
/// parameters that are null.
pub open spec fn request_doc(id: i64, method: Seq<char>, params: Option<Doc>) -> Doc {
    Doc::empty().with("jsonrpc"@, Doc::Text("2.0"@)).with("id"@, Doc::Whole(id as int)).with(
        "method"@,
        Doc::Text(method),
    ).maybe_with("params"@, params)
}

/// A notification.
pub open spec fn notification_doc(method: Seq<char>, params: Option<Doc>) -> Doc {
    Doc::empty().with("jsonrpc"@, Doc::Text("2.0"@)).with("method"@, Doc::Text(method)).maybe_with(
        "params"@,
        params,
    )
}

/// A request.
pub fn request_json(id: i64, method: &str, params: Option<Json>) -> (r: Json)
    ensures
        r@ == request_doc(id, method@, view_opt(params)),
{
    let head = Json::empty_object().with("jsonrpc", Json::from_text("2.0")).with("id", Json::from_int(id)).with(
        "method",
        Json::from_text(method),
    );
    match params {
        Some(p) => head.with("params", p),
        None => head,
    }
}

/// A notification.
pub fn notification_json(method: &str, params: Option<Json>) -> (r: Json)
    ensures
        r@ == notification_doc(method@, view_opt(params)),
{
    let head = Json::empty_object().with("jsonrpc", Json::from_text("2.0")).with("method", Json::from_text(method));
    match params {
        Some(p) => head.with("params", p),
        None => head,
    }
}

/// What is said of a connection that was shut down.
pub open spec fn shutdown_words() -> Seq<char> {
    "shutdown"@
}

/// What is said of a connection that was shut down.
pub fn shutdown_reason() -> (r: String)
    ensures
        r@ == shutdown_words(),
{
    "shutdown".to_owned()
}

/// The parameters of the handshake.
pub open spec fn handshake_doc() -> Doc {
    Doc::empty().with("protocolVersion"@, Doc::Text("2025-06-18"@)).with("capabilities"@, Doc::empty()).with(
        "clientInfo"@,
        Doc::empty().with("name"@, Doc::Text("patchbay"@)).with("version"@, Doc::Text("0.1.0"@)),
    )
}

/// The parameters of the handshake.
pub fn handshake_params() -> (r: Json)
    ensures
        r@ == handshake_doc(),
{
    let info = Json::empty_object().with("name", Json::from_text("patchbay")).with(
        "version",
        Json::from_text("0.1.0"),
    );
    Json::empty_object().with("protocolVersion", Json::from_text("2025-06-18")).with(
        "capabilities",
        Json::empty_object(),
    ).with("clientInfo", info)
}

/// The parameters of a tool call.
pub open spec fn call_doc(name: Seq<char>, arguments: Doc) -> Doc {
    Doc::empty().with("name"@, Doc::Text(name)).with("arguments"@, arguments)
}

/// The parameters of a tool call.
pub fn call_params(name: &str, arguments: Json) -> (r: Json)
    ensures
        r@ == call_doc(name@, arguments@),
        r@ == Doc::empty().with("name"@, Doc::Text(name@)).with("arguments"@, arguments@),
{
    Json::empty_object().with("name", Json::from_text(name)).with("arguments", arguments)
}

/// What a response says: its result, or that it is an error.
pub open spec fn response_result(response: Doc) -> Result<Doc, Seq<char>> {
    if response.member("error"@) is Some {
        Err("upstream error: "@ + json_written(response))
    } else {
        match response.member("result"@) {
            Some(v) => Ok(v),
            None => Ok(Doc::Null),
        }
    }
}

/// What a response says.
pub fn read_response(response: &Json) -> (r: Result<Json, String>)
    ensures
        crate::json::reading(r) == response_result(response@),
{
    if response.get("error").is_some() {
        let mut s = "upstream error: ".to_owned();
        s.append(write_json(response).as_str());
        return Err(s);
    }
    match response.get("result") {
        Some(v) => Ok(v.replica()),
        None => Ok(Json::Null),
    }
}

/// The message with which `serde_json::from_value::<Vec<Value>>` turns down a
/// value that is no array.
pub uninterp spec fn no_list_message(value: Doc) -> Seq<char>;

/// `serde_json::from_value::<Vec<Value>>` on a value that is no array: the
/// message of its error.
#[verifier::external_body]
fn no_list_error(value: &Json) -> (r: String)
    requires
        !(value@ is Array),
    ensures
        r@ == no_list_message(value@),
{
    match serde_json::from_value::<Vec<serde_json::Value>>(to_value(value)) {
        Ok(_) => String::new(),
        Err(e) => e.to_string(),
    }
}

/// The tools in a result: a result that has none lists none, and one that has
/// something else than a list is refused.
pub open spec fn listed_tools(result: Doc) -> Result<Seq<Doc>, Seq<char>> {
    match result.member("tools"@) {
        None => Ok(Seq::empty()),
        Some(Doc::Array(items)) => Ok(items),
        Some(other) => Err("tools/list parse: "@ + no_list_message(other)),
    }
}

/// The tools in a result.
pub fn read_tools(result: &Json) -> (r: Result<Vec<Json>, String>)
    ensures
        match r {
            Ok(tools) => listed_tools(result@) == Ok::<Seq<Doc>, Seq<char>>(views(tools@)),
            Err(e) => listed_tools(result@) == Err::<Seq<Doc>, Seq<char>>(e@),
        },
{
    match result.get("tools") {
        None => {
            let none: Vec<Json> = Vec::new();
            assert(views(none@) =~= Seq::<Doc>::empty());
            Ok(none)
        },
        Some(v) => match v.as_array() {
            Some(items) => Ok(replicas(items)),
            None => {
                let mut s = "tools/list parse: ".to_owned();
                s.append(no_list_error(v).as_str());
                Err(s)
            },
        },
    }
}

/// The next id of a request, counting up and around.
pub open spec fn id_after(id: i64) -> i64 {
    if id < i64::MAX {
        (id + 1) as i64
    } else {
        i64::MIN
    }
}

/// Hand out the next id of a request.
pub fn take_id(next: &mut i64) -> (r: i64)
    ensures
        r == *old(next),
        *final(next) == id_after(*old(next)),
{
    let id: i64 = *next;
    if id < i64::MAX {
        *next = id + 1;
    } else {
        *next = i64::MIN;
    }
    id
}

/// The whole number that a value is, where it fits an id.
pub open spec fn as_id(d: Doc) -> Option<int> {
    match d {
        Doc::Whole(n) => if i64::MIN <= n <= i64::MAX {
            Some(n)
        } else {
            None
        },
        _ => None,
    }
}

impl Json {
    /// The whole number that this value is, where it fits an id.
    pub fn as_id(&self) -> (r: Option<i64>)
        ensures
            r is Some <==> as_id(self@) is Some,
            r matches Some(n) ==> as_id(self@) == Some(n as int),
    {
        match self {
            Json::Number(crate::json::Number::Unsigned(n)) => if *n <= 0x7fff_ffff_ffff_ffff {
                Some(*n as i64)
            } else {
                None
            },
            Json::Number(crate::json::Number::Negative(n)) => Some(*n),
            _ => None,
        }
    }
}

} // verus!
