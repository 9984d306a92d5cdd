//! What the gateway answers over HTTP: which requests it takes at all, and what
//! it makes of a session that is missing or gone.

use vstd::prelude::*;
#[allow(unused_imports)]
use vstd::string::*;

use super::handlers::{
    client_identity, dispatch, dispatched_state, dispatched_step, error_body, error_json, identity,
    initialize_step, initialized_state, success_body, success_json, text_result, text_result_json,
    AddRefusal, DispatchOutcome, DispatchStep, OutcomeModel, RefusalModel, StepModel,
};
use super::jsonrpc::{JsonRpcRequest, RequestModel, INVALID_REQUEST, PARSE_ERROR};
use super::policy::{check_enable, enable_refusal};
use super::session::{SseRecord, StreamSlot};
use super::sse::list_changed_doc;
use crate::app_state::jacks::{
    JackSummary, RemoveErrorModel, RemoveJackError, SummaryModel, ToggleModel, ToggleResult,
};
use crate::app_state::state::{AppModel, AppState};
use crate::config::grants::{find_jack, has_jack, name_of};
use crate::config::schema::JackModel;
use crate::json::{Doc, Json};
use crate::name_map::{replica_opt, view_opt, views};
use crate::text::{
    chars_of, find_from, first_at, last_char_at, occurs_at, rfind_char, same_text, slice_chars, text_of,
};

verus! {

/// The body of a reply.
#[derive(Debug, PartialEq, Eq)]
pub enum ReplyBody {
    Empty,
    Text(String),
    Json(Json),
}

/// A reply: its status and its body.
#[derive(Debug, PartialEq, Eq)]
pub struct HttpReply {
    pub status: u16,
    pub body: ReplyBody,
}

pub enum BodyModel {
    Empty,
    Text(Seq<char>),
    Json(Doc),
}

pub struct ReplyModel {
    pub status: u16,
    pub body: BodyModel,
}

impl View for HttpReply {
    type V = ReplyModel;

    open spec fn view(&self) -> ReplyModel {
        ReplyModel {
            status: self.status,
            body: match self.body {
                ReplyBody::Empty => BodyModel::Empty,
                ReplyBody::Text(t) => BodyModel::Text(t@),
                ReplyBody::Json(j) => BodyModel::Json(j@),
            },
        }
    }
}

// ---- origin --------------------------------------------------------------

/// What stands behind the first `p` of a text; the whole text where there is
/// none.
pub open spec fn after_first(s: Seq<char>, p: Seq<char>) -> Seq<char> {
    if exists|i: int| occurs_at(s, p, i) {
        let i = choose|i: int| first_at(s, p, 0, i);
        s.subrange(i + p.len(), s.len() as int)
    } else {
        s
    }
}

/// What stands before the first `p` of a text; the whole text where there is
/// none.
pub open spec fn before_first(s: Seq<char>, p: Seq<char>) -> Seq<char> {
    if exists|i: int| occurs_at(s, p, i) {
        let i = choose|i: int| first_at(s, p, 0, i);
        s.subrange(0, i)
    } else {
        s
    }
}

/// What stands up to the end of the first `p` of a text; the whole text where
/// there is none.
pub open spec fn through_first(s: Seq<char>, p: Seq<char>) -> Seq<char> {
    if exists|i: int| occurs_at(s, p, i) {
        let i = choose|i: int| first_at(s, p, 0, i);
        s.subrange(0, i + p.len())
    } else {
        s
    }
}

/// What stands before the last `c` of a text; the whole text where there is
/// none.
pub open spec fn before_last(s: Seq<char>, c: char) -> Seq<char> {
    if s.contains(c) {
        let i = choose|i: int| last_char_at(s, c, i);
        s.subrange(0, i)
    } else {
        s
    }
}

/// Whether a text can follow a host in brackets: nothing, or a port, which is one
/// colon and what stands behind it.
pub open spec fn is_port(rest: Seq<char>) -> bool {
    rest.len() == 0 || (rest[0] == ':' && !rest.drop_first().contains(':'))
}

/// The host of an authority, which may carry a port. A host in brackets goes up
/// to the bracket that closes it, and only a port may follow; the colons inside
/// belong to the host. Any other host ends at the last colon.
pub open spec fn host_of(authority: Seq<char>) -> Seq<char> {
    if authority.len() > 0 && authority[0] == '[' {
        let host = through_first(authority, "]"@);
        if is_port(authority.subrange(host.len() as int, authority.len() as int)) {
            host
        } else {
            authority
        }
    } else {
        before_last(authority, ':')
    }
}

/// The host of an origin: what stands between its scheme and its path, without
/// a port.
pub open spec fn origin_host(origin: Seq<char>) -> Seq<char> {
    host_of(before_first(after_first(origin, "://"@), "/"@))
}

/// Whether an origin is on this machine.
pub open spec fn is_local_origin(origin: Seq<char>) -> bool {
    let host = origin_host(origin);
    host == "127.0.0.1"@ || host == "localhost"@ || host == "[::1]"@
}

proof fn lemma_first_unique(s: Seq<char>, p: Seq<char>, i: int)
    requires
        first_at(s, p, 0, i),
    ensures
        exists|k: int| occurs_at(s, p, k),
        (choose|k: int| first_at(s, p, 0, k)) == i,
{
    assert(occurs_at(s, p, i));
    let c = choose|k: int| first_at(s, p, 0, k);
    if c < i {
        assert(!occurs_at(s, p, c));
    } else if i < c {
        assert(!occurs_at(s, p, i));
    }
}

fn port_at(authority: &Vec<char>, from: usize) -> (r: bool)
    requires
        from <= authority@.len(),
    ensures
        r == is_port(authority@.subrange(from as int, authority@.len() as int)),
{
    let n: usize = authority.len();
    let ghost rest = authority@.subrange(from as int, n as int);
    if from == n {
        return true;
    }
    if authority[from] != ':' {
        return false;
    }
    let ghost behind = rest.drop_first();
    let mut i: usize = from + 1;
    while i < n
        invariant
            from < i <= n,
            n == authority.len(),
            rest == authority@.subrange(from as int, n as int),
            behind == rest.drop_first(),
            rest[0] == ':',
            forall|k: int| 0 <= k < i - from - 1 ==> behind[k] != ':',
        decreases n - i,
    {
        if authority[i] == ':' {
            assert(behind[i - from - 1] == ':');
            return false;
        }
        i = i + 1;
    }
    true
}

fn host_chars(authority: Vec<char>) -> (r: Vec<char>)
    ensures
        r@ == host_of(authority@),
{
    let n: usize = authority.len();
    if n > 0 && authority[0] == '[' {
        let close = chars_of("]");
        proof {
            reveal_strlit("]");
        }
        match find_from(&authority, &close, 0) {
            Some(i) => {
                proof {
                    lemma_first_unique(authority@, "]"@, i as int);
                }
                if port_at(&authority, i + 1) {
                    slice_chars(&authority, 0, i + 1)
                } else {
                    authority
                }
            },
            None => {
                assert(authority@.subrange(n as int, n as int) =~= Seq::<char>::empty());
                authority
            },
        }
    } else {
        match rfind_char(&authority, ':') {
            Some(i) => {
                proof {
                    let c = choose|k: int| last_char_at(authority@, ':', k);
                    assert(authority@[i as int] == ':');
                    assert(authority@.contains(':'));
                    assert(last_char_at(authority@, ':', i as int));
                    assert(authority@[c] == ':');
                }
                slice_chars(&authority, 0, i)
            },
            None => authority,
        }
    }
}

/// Whether an `Origin` header points at this machine.
pub fn is_localhost_origin(origin: &str) -> (r: bool)
    ensures
        r == is_local_origin(origin@),
{
    let v = chars_of(origin);
    let scheme = chars_of("://");
    let after: Vec<char> = match find_from(&v, &scheme, 0) {
        Some(i) => {
            let n: usize = v.len();
            proof {
                lemma_first_unique(origin@, "://"@, i as int);
                reveal_strlit("://");
            }
            slice_chars(&v, i + 3, n)
        },
        None => v,
    };
    assert(after@ == after_first(origin@, "://"@));
    let slash = chars_of("/");
    let authority: Vec<char> = match find_from(&after, &slash, 0) {
        Some(i) => {
            proof {
                lemma_first_unique(after@, "/"@, i as int);
            }
            slice_chars(&after, 0, i)
        },
        None => after,
    };
    let host = host_chars(authority);
    let host = text_of(&host);
    let host = host.as_str();
    same_text(host, "127.0.0.1") || same_text(host, "localhost") || same_text(host, "[::1]")
}

/// Turn away a request that comes from another machine's page. A request
/// without an origin is let through.
pub fn origin_guard(origin: Option<&str>) -> (r: Option<HttpReply>)
    ensures
        r is Some <==> (origin is Some && !is_local_origin(origin->0@)),
        r matches Some(reply) ==> reply@ == (ReplyModel {
            status: 403,
            body: BodyModel::Text("forbidden: Origin is not a localhost address"@),
        }),
{
    match origin {
        Some(o) => if is_localhost_origin(o) {
            None
        } else {
            Some(
                HttpReply {
                    status: 403,
                    body: ReplyBody::Text("forbidden: Origin is not a localhost address".to_owned()),
                },
            )
        },
        None => None,
    }
}

// ---- a session that is missing or gone -----------------------------------

/// What the model reads as the result of a call without a live session.
pub open spec fn dead_call_words(never_initialized: bool) -> Seq<char> {
    if never_initialized {
        "You have not established an MCP session with Patchbay yet. Call 'initialize' first, then retry this tool call. If this is your very first connection to Patchbay, the user may need to approve access via a dialog on their screen before tools become available — after initializing, wait a few seconds for that approval, then retry."@
    } else {
        "Your MCP session with Patchbay is no longer valid (it expired, or Patchbay restarted). This is not a tool failure. Call 'initialize' again to start a fresh session, then retry this tool call. If this is your very first connection to Patchbay, the user may need to approve access via a dialog on their screen before tools become available — after reinitializing, wait a few seconds for that approval, then retry."@
    }
}

/// The result of a tool call without a live session: a text that tells the model
/// what to do.
pub fn dead_session_calltool_result(never_initialized: bool) -> (r: Json)
    ensures
        r@ == text_result(dead_call_words(never_initialized), true),
{
    if never_initialized {
        text_result_json(
            "You have not established an MCP session with Patchbay yet. Call 'initialize' first, then retry this tool call. If this is your very first connection to Patchbay, the user may need to approve access via a dialog on their screen before tools become available — after initializing, wait a few seconds for that approval, then retry.",
            true,
        )
    } else {
        text_result_json(
            "Your MCP session with Patchbay is no longer valid (it expired, or Patchbay restarted). This is not a tool failure. Call 'initialize' again to start a fresh session, then retry this tool call. If this is your very first connection to Patchbay, the user may need to approve access via a dialog on their screen before tools become available — after reinitializing, wait a few seconds for that approval, then retry.",
            true,
        )
    }
}

/// What the model reads as the description of the one tool that it sees without
/// a live session.
pub open spec fn dead_list_words(never_initialized: bool) -> Seq<char> {
    if never_initialized {
        "This is a placeholder — Patchbay has no active MCP session for you yet. Call 'initialize' first, then call tools/list again to see the real tools. If this is your very first connection, the user may need to approve access via a dialog on their screen — wait a few seconds after initializing, then retry."@
    } else {
        "This is a placeholder — your MCP session with Patchbay is no longer valid (it expired, or Patchbay restarted). Call 'initialize' again to start a fresh session, then call tools/list again to see the real tools."@
    }
}

pub open spec fn dead_list_doc(never_initialized: bool) -> Doc {
    Doc::empty().with(
        "tools"@,
        Doc::Array(
            seq![
                Doc::empty().with("name"@, Doc::Text("patchbay__session_expired"@)).with(
                    "description"@,
                    Doc::Text(dead_list_words(never_initialized)),
                ).with(
                    "inputSchema"@,
                    Doc::empty().with("type"@, Doc::Text("object"@)).with("properties"@, Doc::empty()),
                ),
            ],
        ),
    )
}

/// The tools that are listed without a live session: one, whose description
/// tells the model what to do.
pub fn dead_session_toolslist_result(never_initialized: bool) -> (r: Json)
    ensures
        r@ == dead_list_doc(never_initialized),
{
    let description = if never_initialized {
        "This is a placeholder — Patchbay has no active MCP session for you yet. Call 'initialize' first, then call tools/list again to see the real tools. If this is your very first connection, the user may need to approve access via a dialog on their screen — wait a few seconds after initializing, then retry."
    } else {
        "This is a placeholder — your MCP session with Patchbay is no longer valid (it expired, or Patchbay restarted). Call 'initialize' again to start a fresh session, then call tools/list again to see the real tools."
    };
    let schema = Json::empty_object().with("type", Json::from_text("object")).with(
        "properties",
        Json::empty_object(),
    );
    let tool = Json::empty_object().with("name", Json::from_text("patchbay__session_expired")).with(
        "description",
        Json::from_text(description),
    ).with("inputSchema", schema);
    Json::empty_object().with("tools", Json::list_1(tool))
}

/// Words for a session that is gone.
pub open spec fn session_gone_words() -> Seq<char> {
    "session not found or expired — call 'initialize' again to start a fresh session (Patchbay likely restarted)"@
}

/// The answer to a message that needs a session and has no live one. `named` says
/// whether it named a session at all. Calls and listings are answered with
/// something that the model reads; anything else with a transport error.
pub open spec fn sessionless_outcome(req: RequestModel, named: bool) -> OutcomeModel {
    if req.method == "tools/call"@ {
        OutcomeModel {
            http_status: 200,
            new_session_id: None,
            body: Some(success_body(req, text_result(dead_call_words(!named), true))),
        }
    } else if req.method == "tools/list"@ {
        OutcomeModel {
            http_status: 200,
            new_session_id: None,
            body: Some(success_body(req, dead_list_doc(!named))),
        }
    } else if named {
        OutcomeModel {
            http_status: 404,
            new_session_id: None,
            body: Some(error_body(None, INVALID_REQUEST, session_gone_words())),
        }
    } else {
        OutcomeModel {
            http_status: 400,
            new_session_id: None,
            body: Some(error_body(None, INVALID_REQUEST, "missing Mcp-Session-Id header"@)),
        }
    }
}

fn without_session(req: &JsonRpcRequest, named: bool) -> (r: DispatchOutcome)
    ensures
        r@ == sessionless_outcome(req@, named),
{
    let method = req.method.as_str();
    if same_text(method, "tools/call") {
        DispatchOutcome::ok(success_json(req, dead_session_calltool_result(!named)))
    } else if same_text(method, "tools/list") {
        DispatchOutcome::ok(success_json(req, dead_session_toolslist_result(!named)))
    } else if named {
        let text =
            "session not found or expired — call 'initialize' again to start a fresh session (Patchbay likely restarted)".to_owned();
        DispatchOutcome {
            http_status: 404,
            new_session_id: None,
            body: Some(error_json(None, INVALID_REQUEST, text)),
        }
    } else {
        DispatchOutcome {
            http_status: 400,
            new_session_id: None,
            body: Some(error_json(None, INVALID_REQUEST, "missing Mcp-Session-Id header".to_owned())),
        }
    }
}

/// Whether a header names a live session.
pub open spec fn is_live(m: AppModel, session: Option<Seq<char>>) -> bool {
    session is Some && m.sessions.contains_key(session->0)
}

/// `POST /mcp`: take one message. `request` is none where the body could not be
/// read. `initialize` needs no session; every other method needs a live one.
pub fn post_mcp(
    state: &mut AppState,
    request: Option<&JsonRpcRequest>,
    session_header: Option<&str>,
    client_header: Option<&str>,
    now: u64,
) -> (r: DispatchStep)
    ensures
        match request {
            None => {
                &&& final(state)@ == old(state)@
                &&& r@ == StepModel::Reply(
                    OutcomeModel {
                        http_status: 400,
                        new_session_id: None,
                        body: Some(error_body(None, PARSE_ERROR, "parse error"@)),
                    },
                )
            },
            Some(req) => if req@.method == "initialize"@ {
                exists|id: Seq<char>| {
                    &&& id.len() == 36
                    &&& final(state)@ == #[trigger] initialized_state(
                        old(state)@,
                        req@,
                        name_of(client_header),
                        id,
                        now,
                    )
                    &&& r@ == initialize_step(old(state)@, req@, name_of(client_header), id)
                }
            } else if is_live(old(state)@, name_of(session_header)) {
                &&& final(state)@ == dispatched_state(old(state)@, req@, name_of(session_header), now)
                &&& r@ == dispatched_step(old(state)@, req@, name_of(session_header))
            } else {
                &&& final(state)@ == old(state)@
                &&& r@ == StepModel::Reply(sessionless_outcome(req@, session_header is Some))
            },
        },
        request matches Some(req) ==> {
            let live = session_header is Some && old(state)@.sessions.contains_key(session_header->0@);
            let client = old(state)@.sessions[session_header->0@].client_name;
            &&& req@.method == "tools/call"@ && live ==> r@ == super::handlers::call_step(old(state)@, req@, client)
            &&& req@.method == "tools/list"@ && live ==> r@ == StepModel::Reply(
                super::handlers::tools_list_outcome(old(state)@, req@, client),
            )
            &&& req@.method != "initialize"@ && !live ==> final(state)@ == old(state)@ && r@ is Reply
        },
        final(state)@.config == old(state)@.config,
        final(state)@.upstream == old(state)@.upstream,
{
    proof {
        super::laws::methods_differ();
    }
    match request {
        None => DispatchStep::Reply(
            DispatchOutcome {
                http_status: 400,
                new_session_id: None,
                body: Some(error_json(None, PARSE_ERROR, "parse error".to_owned())),
            },
        ),
        Some(req) => {
            if same_text(req.method.as_str(), "initialize") {
                return dispatch(state, req, None, client_header, now);
            }
            let live = match session_header {
                Some(id) => state.sessions.get(id).is_some(),
                None => false,
            };
            if live {
                dispatch(state, req, session_header, None, now)
            } else {
                DispatchStep::Reply(without_session(req, session_header.is_some()))
            }
        },
    }
}

/// Who sent a message, for the request log: resolved as the message itself is.
pub open spec fn logged_client(m: AppModel, req: RequestModel, session: Option<Seq<char>>, header: Option<Seq<char>>) -> Option<
    Seq<char>,
> {
    if req.method == "initialize"@ {
        identity(header, req.params)
    } else {
        super::handlers::session_client(m, session)
    }
}

/// Who sent a message, for the request log.
pub fn client_name_for_log(
    state: &AppState,
    req: &JsonRpcRequest,
    session_header: Option<&str>,
    client_header: Option<&str>,
) -> (r: Option<String>)
    ensures
        view_opt(r) == logged_client(state@, req@, name_of(session_header), name_of(client_header)),
{
    if same_text(req.method.as_str(), "initialize") {
        client_identity(client_header, &req.params)
    } else {
        match session_header {
            Some(id) => match state.sessions.get(id) {
                Some(s) => replica_opt(&s.client_name),
                None => None,
            },
            None => None,
        }
    }
}

/// A stream that was opened: its id and generation, and what to send first.
#[derive(Debug, PartialEq, Eq)]
pub struct OpenedStream {
    pub stream_id: u128,
    pub generation: u64,
    pub replay: Vec<SseRecord>,
}

/// The reply to a request for a stream without a live session.
pub open spec fn streamless_reply(named: bool) -> ReplyModel {
    if named {
        ReplyModel { status: 404, body: BodyModel::Text(session_gone_words()) }
    } else {
        ReplyModel { status: 400, body: BodyModel::Text("missing Mcp-Session-Id"@) }
    }
}

/// `GET /mcp`: open the notification stream of a session, in place of the one it
/// had, and hand out what the client missed.
pub fn get_mcp(state: &mut AppState, session_header: Option<&str>, last_event_id: Option<&str>, now: u64) -> (r: Result<
    OpenedStream,
    HttpReply,
>)
    ensures
        match r {
            Ok(o) => {
                let id = session_header->0@;
                let opened = old(state)@.sessions[id].streaming(o.stream_id, now);
                &&& is_live(old(state)@, name_of(session_header))
                &&& opened.notification_stream->0.generation == o.generation
                &&& views(o.replay@) == opened.replay(name_of(last_event_id), now)
                &&& final(state)@ == (AppModel {
                    sessions: old(state)@.sessions.insert(id, opened.replayed(name_of(last_event_id))),
                    ..old(state)@
                })
            },
            Err(reply) => {
                &&& !is_live(old(state)@, name_of(session_header))
                &&& reply@ == streamless_reply(session_header is Some)
                &&& final(state)@ == old(state)@
            },
        },
        r is Ok <==> session_header is Some && old(state)@.sessions.contains_key(session_header->0@),
        r matches Ok(o) ==> {
            let id = session_header->0@;
            let before = old(state)@.sessions[id];
            let after = final(state)@.sessions[id];
            &&& final(state)@.sessions.contains_key(id)
            &&& after.notification_stream == Some((StreamSlot { stream_id: o.stream_id, generation: o.generation }))
            &&& after.last_seen == now
            &&& !after.dirty_tools_list
            &&& after.client_name == before.client_name
            &&& before.dirty_tools_list ==> views(o.replay@).len() > 0 && views(o.replay@).last().json == list_changed_doc()
            &&& last_event_id is None ==> forall|k: int|
                0 <= k < before.backlog.len() && (#[trigger] before.backlog[k]).stream_id is None ==> views(o.replay@).contains(
                    before.backlog[k],
                )
        },
        final(state)@.config == old(state)@.config,
{
    let ghost whole = state@;
    match session_header {
        None => Err(HttpReply { status: 400, body: ReplyBody::Text("missing Mcp-Session-Id".to_owned()) }),
        Some(id) => match state.sessions.check_out(id) {
            None => {
                assert(state@.sessions =~= whole.sessions);
                Err(
                    HttpReply {
                        status: 404,
                        body: ReplyBody::Text(
                            "session not found or expired — call 'initialize' again to start a fresh session (Patchbay likely restarted)".to_owned(),
                        ),
                    },
                )
            },
            Some(s) => {
                let mut session = s;
                let ghost before = session@;
                let (stream_id, generation) = session.register_stream(now);
                let ghost open = session@;
                let replay = session.take_replay_since(last_event_id, now);
                proof {
                    assert forall|k: int|
                        0 <= k < before.backlog.len() && (#[trigger] before.backlog[k]).stream_id is None
                            && last_event_id is None implies views(replay@).contains(before.backlog[k]) by {
                        super::session::replay_is_complete(open, None, 0, now, k);
                        let j = choose|j: int|
                            0 <= j < open.replay(None, now).len() && #[trigger] open.replay(None, now)[j]
                                == open.backlog[k];
                        assert(views(replay@)[j] == before.backlog[k]);
                    }
                }
                let ghost done = session@;
                state.sessions.store(id, session);
                assert(state@.sessions =~= whole.sessions.insert(id@, done));
                Ok(OpenedStream { stream_id, generation, replay })
            },
        },
    }
}

/// `DELETE /mcp`: end a session. Ending one that is not there is no error.
pub fn delete_mcp(state: &mut AppState, session_header: Option<&str>) -> (r: HttpReply)
    ensures
        match session_header {
            Some(id) => {
                &&& r@ == (ReplyModel { status: 204, body: BodyModel::Empty })
                &&& final(state)@ == (AppModel { sessions: old(state)@.sessions.remove(id@), ..old(state)@ })
            },
            None => {
                &&& r@ == (ReplyModel { status: 400, body: BodyModel::Empty })
                &&& final(state)@ == old(state)@
            },
        },
{
    match session_header {
        Some(id) => {
            let _ = state.sessions.remove(id);
            HttpReply { status: 204, body: ReplyBody::Empty }
        },
        None => HttpReply { status: 400, body: ReplyBody::Empty },
    }
}

// ---- /admin/jacks --------------------------------------------------------

/// What a request to switch a jack carries.
#[derive(Clone, Copy, Debug, PartialEq, Eq, Structural)]
pub struct AdminToggleBody {
    pub patched: bool,
}

/// What a request to the toggle hook carries.
#[derive(Debug, PartialEq, Eq)]
pub struct DebugToggleBody {
    pub jack: String,
    pub patched: bool,
}

pub open spec fn error_reply(status: u16, error: Seq<char>) -> ReplyModel {
    ReplyModel { status, body: BodyModel::Json(Doc::empty().with("error"@, Doc::Text(error))) }
}

fn error_with(status: u16, error: &str) -> (r: HttpReply)
    ensures
        r@ == error_reply(status, error@),
{
    HttpReply { status, body: ReplyBody::Json(Json::empty_object().with("error", Json::from_text(error))) }
}

/// A jack of a listing as an object.
pub open spec fn summary_doc(s: SummaryModel) -> Doc {
    Doc::empty().with("name"@, Doc::Text(s.name)).with("patched"@, Doc::Bool(s.patched)).with(
        "transport"@,
        Doc::Text(s.transport),
    ).with("status"@, Doc::Text(s.status)).with("tool_count"@, Doc::Whole(s.tool_count as int))
}

fn summary_json(s: &JackSummary) -> (r: Json)
    ensures
        r@ == summary_doc(s@),
{
    Json::empty_object().with("name", Json::from_text(s.name.as_str())).with("patched", Json::Bool(s.patched)).with(
        "transport",
        Json::from_text(s.transport.as_str()),
    ).with("status", Json::from_text(s.status.as_str())).with("tool_count", Json::from_count(s.tool_count as u64))
}

/// `POST /admin/jacks`, refused: 400 where the jack cannot be added, and 403
/// where it would be switched on.
pub fn admin_add_refused(why: &AddRefusal) -> (r: HttpReply)
    ensures
        r@ == (match why@ {
            RefusalModel::Invalid(e) => error_reply(400, e.message()),
            RefusalModel::Policy(t) => error_reply(403, t),
        }),
{
    match why {
        AddRefusal::Invalid(e) => error_with(400, e.message().as_str()),
        AddRefusal::Policy(t) => error_with(403, t.as_str()),
    }
}

/// `POST /admin/jacks`, done.
pub fn admin_add_jack(summary: &JackSummary) -> (r: HttpReply)
    ensures
        r@ == (ReplyModel { status: 201, body: BodyModel::Json(summary_doc(summary@)) }),
{
    HttpReply { status: 201, body: ReplyBody::Json(summary_json(summary)) }
}

/// `GET /admin/jacks`: every jack.
pub fn admin_list_jacks(state: &AppState) -> (r: HttpReply)
    ensures
        r@ == (ReplyModel {
            status: 200,
            body: BodyModel::Json(
                Doc::Array(state@.config.jacks.map_values(|j: JackModel| summary_doc(state@.summary(j)))),
            ),
        }),
{
    let jacks = state.list_jacks();
    let ghost m = state@;
    let ghost goal = m.config.jacks.map_values(|j: JackModel| summary_doc(m.summary(j)));
    let mut out: Vec<Json> = Vec::new();
    assert(views(out@) =~= goal.subrange(0, 0));
    assert(views(jacks@).len() == jacks@.len());
    let mut i: usize = 0;
    while i < jacks.len()
        invariant
            i <= jacks.len(),
            m.config.jacks.len() == jacks@.len(),
            views(jacks@) == m.config.jacks.map_values(|j: JackModel| m.summary(j)),
            goal == m.config.jacks.map_values(|j: JackModel| summary_doc(m.summary(j))),
            views(out@) == goal.subrange(0, i as int),
        decreases jacks.len() - i,
    {
        let ghost prev = views(out@);
        assert(views(jacks@)[i as int] == jacks@[i as int]@);
        let one = summary_json(&jacks[i]);
        out.push(one);
        assert(views(out@) =~= prev.push(goal[i as int]));
        i = i + 1;
        assert(views(out@) =~= goal.subrange(0, i as int));
    }
    assert(views(out@) =~= goal);
    HttpReply { status: 200, body: ReplyBody::Json(Json::from_items(out)) }
}

/// `DELETE /admin/jacks/{name}`: 200 where the jack was removed, 404 where there
/// is none, 500 where the configuration could not be written.
pub fn admin_remove_jack(name: &str, error: Option<&RemoveJackError>) -> (r: HttpReply)
    ensures
        r@ == (match error {
            None => ReplyModel {
                status: 200,
                body: BodyModel::Json(Doc::empty().with("removed"@, Doc::Text(name@))),
            },
            Some(e) => match e@ {
                RemoveErrorModel::NotFound(_) => error_reply(404, "jack '"@ + name@ + "' not found"@),
                other => error_reply(500, other.message()),
            },
        }),
{
    match error {
        None => HttpReply {
            status: 200,
            body: ReplyBody::Json(Json::empty_object().with("removed", Json::from_text(name))),
        },
        Some(e) => match e {
            RemoveJackError::NotFound(_) => {
                let mut s = "jack '".to_owned();
                s.append(name);
                s.append("' not found");
                error_with(404, s.as_str())
            },
            RemoveJackError::PersistFailed(_) => error_with(500, e.message().as_str()),
        },
    }
}

/// Why `POST /admin/jacks/{name}/toggle` is refused: 404 where there is no such
/// jack, 403 where it is to be switched on.
pub open spec fn toggle_refusal(m: AppModel, name: Seq<char>, on: bool) -> Option<ReplyModel> {
    if !has_jack(m.config.jacks, name) {
        Some(error_reply(404, "jack '"@ + name + "' not found"@))
    } else if on {
        Some(error_reply(403, enable_refusal(name)))
    } else {
        None
    }
}

/// Check a request to switch a jack. Only switching off goes through.
pub fn admin_toggle_refused(state: &AppState, name: &str, body: AdminToggleBody) -> (r: Option<HttpReply>)
    ensures
        view_opt(r) == toggle_refusal(state@, name@, body.patched),
{
    if find_jack(&state.config.jacks, name).is_none() {
        let mut s = "jack '".to_owned();
        s.append(name);
        s.append("' not found");
        return Some(error_with(404, s.as_str()));
    }
    match check_enable(name, body.patched) {
        Ok(_) => None,
        Err(e) => Some(error_with(403, e.as_str())),
    }
}

pub open spec fn toggle_doc(key: Seq<char>, name: Seq<char>, result: ToggleModel) -> Doc {
    Doc::empty().with(key, Doc::Text(name)).with("patched"@, Doc::Bool(result.patched)).with(
        "status"@,
        Doc::Text(result.status),
    )
}

fn toggle_json(key: &str, name: &str, result: &ToggleResult) -> (r: Json)
    ensures
        r@ == toggle_doc(key@, name@, result@),
{
    Json::empty_object().with(key, Json::from_text(name)).with("patched", Json::Bool(result.patched)).with(
        "status",
        Json::from_text(result.status.as_str()),
    )
}

/// `POST /admin/jacks/{name}/toggle`, done.
pub fn admin_toggle_jack(name: &str, result: &ToggleResult) -> (r: HttpReply)
    ensures
        r@ == (ReplyModel { status: 200, body: BodyModel::Json(toggle_doc("name"@, name@, result@)) }),
{
    HttpReply { status: 200, body: ReplyBody::Json(toggle_json("name", name, result)) }
}

/// `POST /debug/toggle`, done.
pub fn debug_toggle(jack: &str, result: &ToggleResult) -> (r: HttpReply)
    ensures
        r@ == (ReplyModel { status: 200, body: BodyModel::Json(toggle_doc("jack"@, jack@, result@)) }),
{
    HttpReply { status: 200, body: ReplyBody::Json(toggle_json("jack", jack, result)) }
}

proof fn lemma_after_scheme(scheme: Seq<char>, rest: Seq<char>)
    requires
        !scheme.contains(':'),
    ensures
        after_first(scheme + "://"@ + rest, "://"@) == rest,
{
    reveal_strlit("://");
    let s = scheme + "://"@ + rest;
    let i = scheme.len() as int;
    assert(s.subrange(i, i + 3) =~= "://"@);
    assert forall|k: int| 0 <= k < i implies !occurs_at(s, "://"@, k) by {
        if occurs_at(s, "://"@, k) {
            assert(s.subrange(k, k + 3)[0] == ':');
            assert(scheme[k] == ':');
        }
    }
    lemma_first_unique(s, "://"@, i);
    assert(s.subrange(i + 3, s.len() as int) =~= rest);
}

proof fn lemma_before_path(s: Seq<char>, path: Seq<char>)
    requires
        !s.contains('/'),
    ensures
        before_first(s, "/"@) == s,
        before_first(s + "/"@ + path, "/"@) == s,
{
    reveal_strlit("/");
    if exists|k: int| occurs_at(s, "/"@, k) {
        let k = choose|k: int| occurs_at(s, "/"@, k);
        assert(s.subrange(k, k + 1)[0] == '/');
        assert(s[k] == '/');
    }
    let t = s + "/"@ + path;
    let i = s.len() as int;
    assert(t.subrange(i, i + 1) =~= "/"@);
    assert forall|k: int| 0 <= k < i implies !occurs_at(t, "/"@, k) by {
        if occurs_at(t, "/"@, k) {
            assert(t.subrange(k, k + 1)[0] == '/');
            assert(s[k] == '/');
        }
    }
    lemma_first_unique(t, "/"@, i);
    assert(t.subrange(0, i) =~= s);
}

proof fn lemma_host_and_port(host: Seq<char>, port: Seq<char>)
    requires
        !host.contains(':'),
        !port.contains(':'),
        host.len() == 0 || host[0] != '[',
    ensures
        host_of(host) == host,
        host_of(host + ":"@ + port) == host,
{
    reveal_strlit(":");
    let t = host + ":"@ + port;
    let i = host.len() as int;
    assert(t[i] == ':');
    assert(t.contains(':'));
    assert forall|k: int| i < k < t.len() implies t[k] != ':' by {
        assert(t[k] == port[k - i - 1]);
        if t[k] == ':' {
            assert(port.contains(port[k - i - 1]));
        }
    }
    assert(last_char_at(t, ':', i));
    let c = choose|c: int| last_char_at(t, ':', c);
    assert(c == i) by {
        if c < i {
            assert(t[i] != ':');
        } else if c > i {
            assert(t[c] != ':');
        }
    }
    assert(t.subrange(0, i) =~= host);
}

proof fn lemma_bracketed_host(inner: Seq<char>, port: Seq<char>)
    requires
        !inner.contains(']'),
        !port.contains(':'),
    ensures
        host_of("["@ + inner + "]"@) == "["@ + inner + "]"@,
        host_of("["@ + inner + "]"@ + ":"@ + port) == "["@ + inner + "]"@,
{
    reveal_strlit("[");
    reveal_strlit("]");
    reveal_strlit(":");
    let host = "["@ + inner + "]"@;
    let i = (inner.len() + 1) as int;
    assert forall|tail: Seq<char>| #[trigger] through_first(host + tail, "]"@) == host by {
        let t = host + tail;
        assert(t.subrange(i, i + 1) =~= "]"@);
        assert forall|k: int| 0 <= k < i implies !occurs_at(t, "]"@, k) by {
            if occurs_at(t, "]"@, k) {
                assert(t.subrange(k, k + 1)[0] == ']');
                if k > 0 {
                    assert(inner[k - 1] == ']');
                }
            }
        }
        lemma_first_unique(t, "]"@, i);
        assert(t.subrange(0, i + 1) =~= host);
    }
    assert(host + Seq::<char>::empty() =~= host);
    assert(through_first(host, "]"@) == host);
    assert(host.subrange(host.len() as int, host.len() as int) =~= Seq::<char>::empty());
    let full = host + ":"@ + port;
    assert(full =~= host + (":"@ + port));
    assert(through_first(full, "]"@) == host);
    let rest = full.subrange(host.len() as int, full.len() as int);
    assert(rest =~= ":"@ + port);
    assert(rest.drop_first() =~= port);
}

/// An origin is judged by its host alone, whatever its scheme, its port and its path
/// are: this machine by its address or by name, and nothing else.
pub proof fn origins_are_judged_by_their_host(scheme: Seq<char>, host: Seq<char>, port: Seq<char>, path: Seq<char>)
    requires
        !scheme.contains(':'),
        !host.contains(':') && !host.contains('/'),
        host.len() == 0 || host[0] != '[',
        !port.contains(':') && !port.contains('/'),
    ensures
        ({
            let local = host == "127.0.0.1"@ || host == "localhost"@;
            &&& is_local_origin(scheme + "://"@ + host) == local
            &&& is_local_origin(scheme + "://"@ + (host + ":"@ + port)) == local
            &&& is_local_origin(scheme + "://"@ + (host + "/"@ + path)) == local
            &&& is_local_origin(scheme + "://"@ + (host + ":"@ + port + "/"@ + path)) == local
        }),
{
    reveal_strlit(":");
    reveal_strlit("[::1]");
    lemma_after_scheme(scheme, host);
    lemma_after_scheme(scheme, host + ":"@ + port);
    lemma_after_scheme(scheme, host + "/"@ + path);
    lemma_after_scheme(scheme, host + ":"@ + port + "/"@ + path);
    lemma_before_path(host, path);
    let both = host + ":"@ + port;
    assert(!both.contains('/')) by {
        if both.contains('/') {
            let k = choose|k: int| 0 <= k < both.len() && both[k] == '/';
            if k < host.len() {
                assert(host[k] == '/');
            } else if k > host.len() {
                assert(port[k - host.len() - 1] == '/');
            }
        }
    }
    lemma_before_path(both, path);
    lemma_host_and_port(host, port);
    if host == "[::1]"@ {
        assert(host[0] == '[');
    }
}

proof fn lemma_bracketed_local(inner: Seq<char>)
    ensures
        ({
            let host = "["@ + inner + "]"@;
            (host == "127.0.0.1"@ || host == "localhost"@ || host == "[::1]"@) == (inner == "::1"@)
        }),
{
    reveal_strlit("[");
    reveal_strlit("]");
    reveal_strlit("::1");
    reveal_strlit("[::1]");
    reveal_strlit("127.0.0.1");
    reveal_strlit("localhost");
    let host = "["@ + inner + "]"@;
    assert(host[0] == '[');
    assert("127.0.0.1"@[0] == '1');
    assert("localhost"@[0] == 'l');
    assert("[::1]"@ =~= "["@ + "::1"@ + "]"@);
    assert(inner =~= host.subrange(1, host.len() - 1));
    assert("[::1]"@.subrange(1, 4) =~= "::1"@);
}

proof fn lemma_bracketed_pathless(inner: Seq<char>, port: Seq<char>)
    requires
        !inner.contains('/'),
        !port.contains('/'),
    ensures
        !("["@ + inner + "]"@).contains('/'),
        !("["@ + inner + "]"@ + ":"@ + port).contains('/'),
{
    reveal_strlit("[");
    reveal_strlit("]");
    reveal_strlit(":");
    let host = "["@ + inner + "]"@;
    let full = host + ":"@ + port;
    if host.contains('/') {
        let k = choose|k: int| 0 <= k < host.len() && host[k] == '/';
        if 0 < k <= inner.len() {
            assert(inner[k - 1] == '/');
        }
    }
    if full.contains('/') {
        let k = choose|k: int| 0 <= k < full.len() && full[k] == '/';
        if k < host.len() {
            assert(host[k] == '/');
        } else if k > host.len() {
            assert(port[k - host.len() - 1] == '/');
        }
    }
}

/// An origin whose host is an address in brackets is on this machine exactly where that
/// address is `::1`, with a port and without.
pub proof fn bracketed_origins_are_judged_by_their_host(scheme: Seq<char>, inner: Seq<char>, port: Seq<char>)
    requires
        !scheme.contains(':'),
        !inner.contains(']') && !inner.contains('/'),
        !port.contains(':') && !port.contains('/'),
    ensures
        is_local_origin(scheme + "://"@ + ("["@ + inner + "]"@)) == (inner == "::1"@),
        is_local_origin(scheme + "://"@ + ("["@ + inner + "]"@ + ":"@ + port)) == (inner == "::1"@),
{
    let host = "["@ + inner + "]"@;
    let full = host + ":"@ + port;
    lemma_bracketed_pathless(inner, port);
    lemma_after_scheme(scheme, host);
    lemma_after_scheme(scheme, full);
    lemma_before_path(host, Seq::empty());
    lemma_before_path(full, Seq::empty());
    lemma_bracketed_host(inner, port);
    lemma_bracketed_local(inner);
}

/// What is said of a jack over HTTP is its name, its switch, its transport, its status
/// and the number of its tools.
pub proof fn summaries_are_sent_whole(s: SummaryModel)
    ensures
        summary_doc(s).member("name"@) == Some(Doc::Text(s.name)),
        summary_doc(s).member("patched"@) == Some(Doc::Bool(s.patched)),
        summary_doc(s).member("transport"@) == Some(Doc::Text(s.transport)),
        summary_doc(s).member("status"@) == Some(Doc::Text(s.status)),
        summary_doc(s).member("tool_count"@) == Some(Doc::Whole(s.tool_count as int)),
{
    reveal_strlit("name");
    reveal_strlit("patched");
    reveal_strlit("transport");
    reveal_strlit("status");
    reveal_strlit("tool_count");
    assert("name"@.len() == 4 && "patched"@.len() == 7 && "transport"@.len() == 9 && "status"@.len() == 6
        && "tool_count"@.len() == 10);
    let d0 = Doc::empty();
    let d1 = d0.with("name"@, Doc::Text(s.name));
    let d2 = d1.with("patched"@, Doc::Bool(s.patched));
    let d3 = d2.with("transport"@, Doc::Text(s.transport));
    let d4 = d3.with("status"@, Doc::Text(s.status));
    let d5 = d4.with("tool_count"@, Doc::Whole(s.tool_count as int));
    assert forall|k: Seq<char>| d5.member(k) == (if k == "name"@ {
        Some(Doc::Text(s.name))
    } else if k == "patched"@ {
        Some(Doc::Bool(s.patched))
    } else if k == "transport"@ {
        Some(Doc::Text(s.transport))
    } else if k == "status"@ {
        Some(Doc::Text(s.status))
    } else if k == "tool_count"@ {
        Some(Doc::Whole(s.tool_count as int))
    } else {
        None::<Doc>
    }) by {
        crate::json::added_member_is_found(d0, "name"@, Doc::Text(s.name), k);
        crate::json::added_member_is_found(d1, "patched"@, Doc::Bool(s.patched), k);
        crate::json::added_member_is_found(d2, "transport"@, Doc::Text(s.transport), k);
        crate::json::added_member_is_found(d3, "status"@, Doc::Text(s.status), k);
        crate::json::added_member_is_found(d4, "tool_count"@, Doc::Whole(s.tool_count as int), k);
    }
    assert(summary_doc(s) == d5);
}

/// What came of switching a jack over HTTP says which jack it is, its switch and its
/// status.
pub proof fn switches_are_told_whole(key: Seq<char>, name: Seq<char>, t: ToggleModel)
    requires
        key == "name"@ || key == "jack"@,
    ensures
        toggle_doc(key, name, t).member(key) == Some(Doc::Text(name)),
        toggle_doc(key, name, t).member("patched"@) == Some(Doc::Bool(t.patched)),
        toggle_doc(key, name, t).member("status"@) == Some(Doc::Text(t.status)),
{
    reveal_strlit("name");
    reveal_strlit("jack");
    reveal_strlit("patched");
    reveal_strlit("status");
    assert("name"@.len() == 4 && "jack"@.len() == 4 && "patched"@.len() == 7 && "status"@.len() == 6);
    let d0 = Doc::empty();
    let d1 = d0.with(key, Doc::Text(name));
    let d2 = d1.with("patched"@, Doc::Bool(t.patched));
    let d3 = d2.with("status"@, Doc::Text(t.status));
    assert forall|k: Seq<char>| d3.member(k) == (if k == key {
        Some(Doc::Text(name))
    } else if k == "patched"@ {
        Some(Doc::Bool(t.patched))
    } else if k == "status"@ {
        Some(Doc::Text(t.status))
    } else {
        None::<Doc>
    }) by {
        crate::json::added_member_is_found(d0, key, Doc::Text(name), k);
        crate::json::added_member_is_found(d1, "patched"@, Doc::Bool(t.patched), k);
        crate::json::added_member_is_found(d2, "status"@, Doc::Text(t.status), k);
    }
    assert(toggle_doc(key, name, t) == d3);
}

} // verus!
