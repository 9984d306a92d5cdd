//! What the gateway answers to one JSON-RPC message of a client.

use vstd::prelude::*;
#[allow(unused_imports)]
use vstd::string::*;

use super::builtin::{builtin_admin_tools, builtin_docs};
use super::jsonrpc::{self, JsonRpcRequest, RequestModel, ResponseModel, ErrorModel, INVALID_PARAMS, METHOD_NOT_FOUND, SERVER_ERROR};
use super::policy::{add_refusal, check_add, check_enable, enable_refusal};
use super::registry::new_session;
use super::session::SessionModel;
use super::tools::{merged_tool, namespaced_tool, parted, split_namespaced};
use crate::app_state::identity::{sanitize_client_name, sanitized};
use crate::app_state::jacks::{
    add_error, AddErrorModel, AddJackError, JackSummary, RemoveErrorModel, RemoveJackError, SummaryModel,
    ToggleModel, ToggleResult,
};
use crate::app_state::state::{bool_text, bool_word, AppModel, AppState};
use crate::config::grants::{find_jack, has_jack, name_of};
use crate::config::laws::{adding_off_grants_nothing, removal_grants_nothing, switching_off_grants_nothing};
use crate::config::schema::{ConfigModel, JackConfigInput, JackModel};
use crate::json::{Doc, Json};
use crate::name_map::{lemma_filter_none, lemma_filter_step, replica_opt, view_opt, views, Replica};
use crate::numerals::{decimal, decimal_text};
use crate::text::{join_texts, joined, occurs_at, same_text, strip_prefix_text, texts, trim_text, trimmed};
use crate::upstream::manager::{all_tools, call_route, running, status_text};

verus! {

/// The protocol version that is preferred.
pub const PREFERRED_PROTOCOL_VERSION: &'static str = "2025-06-18";

/// The version of this gateway.
pub const SERVER_VERSION: &'static str = "0.1.0";

/// What one message is answered: a status, the id of a new session where one
/// was made, and a body where there is one.
#[derive(Debug, PartialEq, Eq)]
pub struct DispatchOutcome {
    pub http_status: u16,
    pub new_session_id: Option<String>,
    pub body: Option<Json>,
}

pub struct OutcomeModel {
    pub http_status: u16,
    pub new_session_id: Option<Seq<char>>,
    pub body: Option<Doc>,
}

impl View for DispatchOutcome {
    type V = OutcomeModel;

    open spec fn view(&self) -> OutcomeModel {
        OutcomeModel {
            http_status: self.http_status,
            new_session_id: view_opt(self.new_session_id),
            body: view_opt(self.body),
        }
    }
}

pub open spec fn ok_outcome(body: Doc) -> OutcomeModel {
    OutcomeModel { http_status: 200, new_session_id: None, body: Some(body) }
}

pub open spec fn accepted_outcome() -> OutcomeModel {
    OutcomeModel { http_status: 202, new_session_id: None, body: None }
}

impl DispatchOutcome {
    /// 200 with a body.
    pub fn ok(body: Json) -> (r: Self)
        ensures
            r@ == ok_outcome(body@),
    {
        DispatchOutcome { http_status: 200, new_session_id: None, body: Some(body) }
    }

    /// 200 with a body and a new session.
    pub fn ok_with_session(session_id: String, body: Json) -> (r: Self)
        ensures
            r@ == (OutcomeModel { new_session_id: Some(session_id@), ..ok_outcome(body@) }),
    {
        DispatchOutcome { http_status: 200, new_session_id: Some(session_id), body: Some(body) }
    }

    /// 202 without a body.
    pub fn accepted() -> (r: Self)
        ensures
            r@ == accepted_outcome(),
    {
        DispatchOutcome { http_status: 202, new_session_id: None, body: None }
    }
}

/// The body of a successful answer to a request.
pub open spec fn success_body(req: RequestModel, result: Doc) -> Doc {
    jsonrpc::response_doc(ResponseModel { jsonrpc: "2.0"@, id: req.id, result: Some(result), error: None })
}

/// The body of an error in answer to the request `id`.
pub open spec fn error_body(id: Option<Doc>, code: i64, message: Seq<char>) -> Doc {
    jsonrpc::response_doc(
        ResponseModel {
            jsonrpc: "2.0"@,
            id,
            result: None,
            error: Some(ErrorModel { code, message, data: None }),
        },
    )
}

pub(crate) fn success_json(req: &JsonRpcRequest, result: Json) -> (r: Json)
    ensures
        r@ == success_body(req@, result@),
{
    jsonrpc::success(replica_opt(&req.id), result).to_json()
}

pub(crate) fn error_json(id: Option<Json>, code: i64, message: String) -> (r: Json)
    ensures
        r@ == error_body(view_opt(id), code, message@),
{
    jsonrpc::error(id, code, message, None).to_json()
}

/// The result of a tool call that is one text, which the model reads.
pub open spec fn text_result(text: Seq<char>, is_error: bool) -> Doc {
    Doc::empty().with(
        "content"@,
        Doc::Array(seq![Doc::empty().with("type"@, Doc::Text("text"@)).with("text"@, Doc::Text(text))]),
    ).with("isError"@, Doc::Bool(is_error))
}

pub(crate) fn text_result_json(text: &str, is_error: bool) -> (r: Json)
    ensures
        r@ == text_result(text@, is_error),
{
    let item = Json::empty_object().with("type", Json::from_text("text")).with("text", Json::from_text(text));
    Json::empty_object().with("content", Json::list_1(item)).with("isError", Json::Bool(is_error))
}

/// The answer to a tool call that is one text.
pub open spec fn text_outcome(req: RequestModel, text: Seq<char>, is_error: bool) -> OutcomeModel {
    ok_outcome(success_body(req, text_result(text, is_error)))
}

/// Answer a tool call with a text that says what went wrong.
pub fn call_tool_error(req: &JsonRpcRequest, text: &str) -> (r: DispatchOutcome)
    ensures
        r@ == text_outcome(req@, text@, true),
{
    DispatchOutcome::ok(success_json(req, text_result_json(text, true)))
}

/// Answer a tool call with a text.
pub fn call_tool_text(req: &JsonRpcRequest, text: &str) -> (r: DispatchOutcome)
    ensures
        r@ == text_outcome(req@, text@, false),
{
    DispatchOutcome::ok(success_json(req, text_result_json(text, false)))
}

/// What a client reads when a jack is off for it.
pub open spec fn unpatched_words(jack: Seq<char>, client: Option<Seq<char>>, client_specific: bool) -> Seq<char> {
    if client_specific {
        let name = match client {
            Some(n) => n,
            None => "this agent"@,
        };
        "Patchbay: server '"@ + jack + "' is disabled for THIS agent ('"@ + name
            + "') by a Patchbay per-agent custom setting; other agents may still have it enabled. Do not retry; ask the user to re-enable '"@
            + jack + "' for '"@ + name + "' in the Patchbay tray (Custom submenu) if this tool is required."@
    } else {
        "Patchbay: server '"@ + jack
            + "' is currently UNPATCHED (disabled) in the Patchbay tray. All of its tools are unavailable to every agent until the user re-enables it. Do not retry; ask the user to enable '"@
            + jack + "' in Patchbay if this tool is required."@
    }
}

/// What a client reads when a jack is off for it: off by the client's own list,
/// or off for everybody.
pub fn unpatched_text(jack: &str, client_name: Option<&str>, client_specific: bool) -> (r: String)
    ensures
        r@ == unpatched_words(jack@, name_of(client_name), client_specific),
{
    let mut s = "Patchbay: server '".to_owned();
    s.append(jack);
    if client_specific {
        let name = match client_name {
            Some(n) => n,
            None => "this agent",
        };
        s.append("' is disabled for THIS agent ('");
        s.append(name);
        s.append(
            "') by a Patchbay per-agent custom setting; other agents may still have it enabled. Do not retry; ask the user to re-enable '",
        );
        s.append(jack);
        s.append("' for '");
        s.append(name);
        s.append("' in the Patchbay tray (Custom submenu) if this tool is required.");
    } else {
        s.append(
            "' is currently UNPATCHED (disabled) in the Patchbay tray. All of its tools are unavailable to every agent until the user re-enables it. Do not retry; ask the user to enable '",
        );
        s.append(jack);
        s.append("' in Patchbay if this tool is required.");
    }
    s
}

/// What a denied client reads.
pub open spec fn forbidden_words(client: Option<Seq<char>>) -> Seq<char> {
    let name = match client {
        Some(n) => n,
        None => "This agent"@,
    };
    "Patchbay: this agent ('"@ + name
        + "') has been blocked by the user from this Patchbay instance. No MCP servers or tools are available to it. Do not retry; ask the user to remove '"@
        + name + "' from the Patchbay tray (Settings → Forbidden) if access should be granted."@
}

/// What a denied client reads.
pub fn forbidden_text(client_name: Option<&str>) -> (r: String)
    ensures
        r@ == forbidden_words(name_of(client_name)),
{
    let name = match client_name {
        Some(n) => n,
        None => "This agent",
    };
    let mut s = "Patchbay: this agent ('".to_owned();
    s.append(name);
    s.append(
        "') has been blocked by the user from this Patchbay instance. No MCP servers or tools are available to it. Do not retry; ask the user to remove '",
    );
    s.append(name);
    s.append("' from the Patchbay tray (Settings → Forbidden) if access should be granted.");
    s
}

/// The last error of a jack that does not run, out of the words for its status.
pub open spec fn reason_words(status: Seq<char>) -> Seq<char> {
    if status == "starting"@ {
        "starting"@
    } else if occurs_at(status, "failed:"@, 0) {
        trimmed(status.subrange("failed:"@.len() as int, status.len() as int))
    } else {
        "not running"@
    }
}

/// The last error of a jack that does not run, out of the words for its status.
pub fn not_running_reason(status: &str) -> (r: String)
    ensures
        r@ == reason_words(status@),
{
    if same_text(status, "starting") {
        return "starting".to_owned();
    }
    match strip_prefix_text(status, "failed:") {
        Some(rest) => {
            assert(status@.subrange("failed:"@.len() as int, status@.len() as int) =~= rest@);
            trim_text(rest.as_str())
        },
        None => "not running".to_owned(),
    }
}

/// What a client reads when a jack is on for it and does not run.
pub open spec fn not_running_words(jack: Seq<char>, status: Seq<char>) -> Seq<char> {
    "Patchbay: server '"@ + jack + "' is patched but not running (last error: "@ + reason_words(status)
        + "). Toggling it off and on in the tray restarts it."@
}

/// What a client reads when a call failed on the way.
pub open spec fn call_failed_words(jack: Seq<char>, why: Seq<char>) -> Seq<char> {
    "Patchbay: call to server '"@ + jack + "' failed ("@ + why + ")."@
}

fn call_failed_text(jack: &str, why: &str) -> (r: String)
    ensures
        r@ == call_failed_words(jack@, why@),
{
    let mut s = "Patchbay: call to server '".to_owned();
    s.append(jack);
    s.append("' failed (");
    s.append(why);
    s.append(").");
    s
}

// ---- initialize ----------------------------------------------------------

/// The protocol version that is agreed on: the client's where it is supported.
pub open spec fn agreed_version(params: Option<Doc>) -> Seq<char> {
    let asked = match params {
        Some(p) => p.text_member("protocolVersion"@),
        None => None,
    };
    if asked == Some("2025-03-26"@) {
        "2025-03-26"@
    } else {
        "2025-06-18"@
    }
}

fn agree_version(params: &Option<Json>) -> (r: &'static str)
    ensures
        r@ == agreed_version(view_opt(*params)),
{
    match params {
        Some(p) => match p.text_member("protocolVersion") {
            Some(v) => if same_text(v.as_str(), "2025-03-26") {
                "2025-03-26"
            } else {
                "2025-06-18"
            },
            None => "2025-06-18",
        },
        None => "2025-06-18",
    }
}

/// The name that a client gives itself in `clientInfo`.
pub open spec fn reported_name(params: Option<Doc>) -> Option<Seq<char>> {
    match params {
        Some(p) => match p.member("clientInfo"@) {
            Some(ci) => ci.text_member("name"@),
            None => None,
        },
        None => None,
    }
}

/// The version that a client gives itself, beside a name.
pub open spec fn reported_version(params: Option<Doc>) -> Option<Seq<char>> {
    if reported_name(params) is Some {
        params->0.member("clientInfo"@)->0.text_member("version"@)
    } else {
        None
    }
}

/// Who a client is: what the header says, where it says anything, and else the
/// name that the client gives itself; either way made safe to show.
pub open spec fn identity(header: Option<Seq<char>>, params: Option<Doc>) -> Option<Seq<char>> {
    if header is Some && trimmed(header->0).len() > 0 {
        Some(sanitized(trimmed(header->0)))
    } else {
        match reported_name(params) {
            Some(n) => Some(sanitized(n)),
            None => None,
        }
    }
}

/// Who a client is.
pub fn client_identity(header_client: Option<&str>, params: &Option<Json>) -> (r: Option<String>)
    ensures
        view_opt(r) == identity(name_of(header_client), view_opt(*params)),
{
    if let Some(h) = header_client {
        let t = trim_text(h);
        if !t.as_str().is_empty() {
            return Some(sanitize_client_name(t.as_str()));
        }
    }
    match params {
        Some(p) => match p.get("clientInfo") {
            Some(ci) => match ci.text_member("name") {
                Some(n) => Some(sanitize_client_name(n.as_str())),
                None => None,
            },
            None => None,
        },
        None => None,
    }
}

fn client_version(params: &Option<Json>) -> (r: Option<String>)
    ensures
        view_opt(r) == reported_version(view_opt(*params)),
{
    match params {
        Some(p) => match p.get("clientInfo") {
            Some(ci) => match ci.text_member("name") {
                Some(_) => match ci.text_member("version") {
                    Some(v) => Some(v.clone()),
                    None => None,
                },
                None => None,
            },
            None => None,
        },
        None => None,
    }
}

/// What a client reads that does not say who it is while new clients need the
/// user's approval.
pub open spec fn unidentified_words() -> Seq<char> {
    "Patchbay requires new agents to identify themselves (this server has 'Require approval for new agents' enabled). Send an MCP clientInfo.name in your initialize request, or set the X-Patchbay-Client HTTP header."@
}

/// The result of `initialize`.
pub open spec fn initialize_result(version: Seq<char>) -> Doc {
    Doc::empty().with("protocolVersion"@, Doc::Text(version)).with(
        "capabilities"@,
        Doc::empty().with("tools"@, Doc::empty().with("listChanged"@, Doc::Bool(true))),
    ).with(
        "serverInfo"@,
        Doc::empty().with("name"@, Doc::Text("patchbay"@)).with("title"@, Doc::Text("Patchbay"@)).with(
            "version"@,
            Doc::Text("0.1.0"@),
        ),
    ).with(
        "instructions"@,
        Doc::Text(
            "Patchbay exposes upstream MCP servers as namespaced tools named <jack>__<tool>. If a tool call returns an \"unpatched\" error, the user has disabled that server in the Patchbay tray; ask them to re-enable it there."@,
        ),
    )
}

fn initialize_json(version: &str) -> (r: Json)
    ensures
        r@ == initialize_result(version@),
{
    let capabilities = Json::empty_object().with(
        "tools",
        Json::empty_object().with("listChanged", Json::Bool(true)),
    );
    let info = Json::empty_object().with("name", Json::from_text("patchbay")).with(
        "title",
        Json::from_text("Patchbay"),
    ).with("version", Json::from_text("0.1.0"));
    Json::empty_object().with("protocolVersion", Json::from_text(version)).with("capabilities", capabilities).with(
        "serverInfo",
        info,
    ).with(
        "instructions",
        Json::from_text(
            "Patchbay exposes upstream MCP servers as namespaced tools named <jack>__<tool>. If a tool call returns an \"unpatched\" error, the user has disabled that server in the Patchbay tray; ask them to re-enable it there.",
        ),
    )
}

/// What follows a message: an answer, or something to be done first.
#[derive(Debug, PartialEq, Eq)]
pub enum DispatchStep {
    /// Send this answer.
    Reply(DispatchOutcome),
    /// Let the client wait for its approval where it says who it is, note that
    /// it was seen, and send this answer after that.
    Admit { outcome: DispatchOutcome, client: Option<String>, version: Option<String> },
    /// Send the call on to this client; [`routed`] answers.
    Route { handle: u64, jack: String, tool: String, arguments: Json },
    /// Add the jack that the arguments describe; [`jack_added`] answers.
    AddJack { arguments: Json },
    /// Remove the jack; [`jack_removed`] answers.
    RemoveJack { name: String },
    /// Switch the jack off; [`jack_toggled`] answers.
    SwitchOff { name: String },
}

pub enum StepModel {
    Reply(OutcomeModel),
    Admit { outcome: OutcomeModel, client: Option<Seq<char>>, version: Option<Seq<char>> },
    Route { handle: u64, jack: Seq<char>, tool: Seq<char>, arguments: Doc },
    AddJack { arguments: Doc },
    RemoveJack { name: Seq<char> },
    SwitchOff { name: Seq<char> },
}

impl View for DispatchStep {
    type V = StepModel;

    open spec fn view(&self) -> StepModel {
        match self {
            DispatchStep::Reply(o) => StepModel::Reply(o@),
            DispatchStep::Admit { outcome, client, version } => StepModel::Admit {
                outcome: outcome@,
                client: view_opt(*client),
                version: view_opt(*version),
            },
            DispatchStep::Route { handle, jack, tool, arguments } => StepModel::Route {
                handle: *handle,
                jack: jack@,
                tool: tool@,
                arguments: arguments@,
            },
            DispatchStep::AddJack { arguments } => StepModel::AddJack { arguments: arguments@ },
            DispatchStep::RemoveJack { name } => StepModel::RemoveJack { name: name@ },
            DispatchStep::SwitchOff { name } => StepModel::SwitchOff { name: name@ },
        }
    }
}

/// Whether `initialize` is refused: new clients need approval, and this one does
/// not say who it is.
pub open spec fn refuses_session(m: AppModel, req: RequestModel, header: Option<Seq<char>>) -> bool {
    identity(header, req.params) is None && m.config.require_approval_for_new_clients
}

/// The session that `initialize` makes.
pub open spec fn admitted_session(
    req: RequestModel,
    header: Option<Seq<char>>,
    id: Seq<char>,
    now: u64,
) -> SessionModel {
    SessionModel {
        protocol_version: agreed_version(req.params),
        client_name: identity(header, req.params),
        ..new_session(id, now)
    }
}

/// What follows `initialize`, where `id` is the id of the new session.
pub open spec fn initialize_step(m: AppModel, req: RequestModel, header: Option<Seq<char>>, id: Seq<char>) -> StepModel {
    if refuses_session(m, req, header) {
        StepModel::Reply(ok_outcome(error_body(req.id, SERVER_ERROR, unidentified_words())))
    } else {
        StepModel::Admit {
            outcome: OutcomeModel {
                new_session_id: Some(id),
                ..ok_outcome(success_body(req, initialize_result(agreed_version(req.params))))
            },
            client: identity(header, req.params),
            version: reported_version(req.params),
        }
    }
}

/// The state after `initialize`.
pub open spec fn initialized_state(
    m: AppModel,
    req: RequestModel,
    header: Option<Seq<char>>,
    id: Seq<char>,
    now: u64,
) -> AppModel {
    if refuses_session(m, req, header) {
        m
    } else {
        AppModel { sessions: m.sessions.insert(id, admitted_session(req, header, id, now)), ..m }
    }
}

/// `initialize`, with `id` for the id of the new session.
pub fn handle_initialize_as(
    state: &mut AppState,
    req: &JsonRpcRequest,
    header_client: Option<&str>,
    id: &str,
    now: u64,
) -> (r: DispatchStep)
    ensures
        final(state)@ == initialized_state(old(state)@, req@, name_of(header_client), id@, now),
        r@ == initialize_step(old(state)@, req@, name_of(header_client), id@),
{
    let ghost whole = state@;
    let client = client_identity(header_client, &req.params);
    if client.is_none() && state.config.require_approval_for_new_clients {
        let text =
            "Patchbay requires new agents to identify themselves (this server has 'Require approval for new agents' enabled). Send an MCP clientInfo.name in your initialize request, or set the X-Patchbay-Client HTTP header.".to_owned();
        return DispatchStep::Reply(DispatchOutcome::ok(error_json(replica_opt(&req.id), SERVER_ERROR, text)));
    }
    let version = agree_version(&req.params);
    state.sessions.create_as(id, now);
    if let Some(s) = state.sessions.check_out(id) {
        let mut session = s;
        session.protocol_version = version.to_owned();
        session.set_client_name(replica_opt(&client));
        state.sessions.store(id, session);
    }
    assert(state@.sessions =~= whole.sessions.insert(
        id@,
        admitted_session(req@, name_of(header_client), id@, now),
    ));
    let body = success_json(req, initialize_json(version));
    DispatchStep::Admit {
        outcome: DispatchOutcome::ok_with_session(id.to_owned(), body),
        client,
        version: client_version(&req.params),
    }
}

/// `initialize`: agree on a protocol version, find out who the client is, and
/// make a session for it.
pub fn handle_initialize(
    state: &mut AppState,
    req: &JsonRpcRequest,
    header_client: Option<&str>,
    now: u64,
) -> (r: DispatchStep)
    ensures
        exists|id: Seq<char>| {
            &&& id.len() == 36
            &&& final(state)@ == #[trigger] initialized_state(old(state)@, req@, name_of(header_client), id, now)
            &&& r@ == initialize_step(old(state)@, req@, name_of(header_client), id)
        },
{
    let ghost whole = state@;
    let id = super::registry::fresh_session_id();
    let r = handle_initialize_as(state, req, header_client, id.as_str(), now);
    assert(state@ == initialized_state(whole, req@, name_of(header_client), id@, now));
    r
}

// ---- tools/list ----------------------------------------------------------

/// Whether a client sees the tools of a jack: there is such a jack, and the
/// client may reach it.
pub open spec fn sees(c: ConfigModel, jack: Seq<char>, client: Option<Seq<char>>) -> bool {
    has_jack(c.jacks, jack) && c.grants(jack, client)
}

/// The tools that a client sees: those of the jacks that it may reach, under
/// their merged names, and then the gateway's own. A denied client sees none.
pub open spec fn visible_tools(m: AppModel, client: Option<Seq<char>>) -> Seq<Doc> {
    let jack_tools = all_tools(m.upstream).filter(
        |t: (Seq<char>, Doc)| sees(m.config, t.0, client),
    ).map_values(|t: (Seq<char>, Doc)| merged_tool(t.0, t.1));
    if m.config.forbids(client) {
        jack_tools
    } else {
        jack_tools + builtin_docs()
    }
}

/// The answer to `tools/list`.
pub open spec fn tools_list_outcome(m: AppModel, req: RequestModel, client: Option<Seq<char>>) -> OutcomeModel {
    ok_outcome(success_body(req, Doc::empty().with("tools"@, Doc::Array(visible_tools(m, client)))))
}

fn sees_jack(state: &AppState, jack: &str, client: Option<&str>) -> (r: bool)
    ensures
        r == sees(state@.config, jack@, name_of(client)),
{
    find_jack(&state.config.jacks, jack).is_some() && state.config.effective_patched(jack, client)
}

/// `tools/list`: the tools that the client sees.
pub fn handle_tools_list(state: &AppState, req: &JsonRpcRequest, client_name: Option<&str>) -> (r: DispatchOutcome)
    ensures
        r@ == tools_list_outcome(state@, req@, name_of(client_name)),
{
    let tools = state.upstream.cached_tools();
    let ghost shown = |e: (String, Json)| (e.0@, e.1@);
    let ghost all = all_tools(state@.upstream);
    let ghost client = name_of(client_name);
    let ghost pred = |t: (Seq<char>, Doc)| sees(state@.config, t.0, client);
    let ghost merge = |t: (Seq<char>, Doc)| merged_tool(t.0, t.1);
    let mut out: Vec<Json> = Vec::new();
    proof {
        lemma_filter_none(all, pred);
        assert(views(out@) =~= all.subrange(0, 0).filter(pred).map_values(merge));
    }
    let mut i: usize = 0;
    while i < tools.len()
        invariant
            i <= tools.len(),
            shown == (|e: (String, Json)| (e.0@, e.1@)),
            tools@.map_values(shown) == all,
            client == name_of(client_name),
            pred == (|t: (Seq<char>, Doc)| sees(state@.config, t.0, client)),
            merge == (|t: (Seq<char>, Doc)| merged_tool(t.0, t.1)),
            views(out@) == all.subrange(0, i as int).filter(pred).map_values(merge),
        decreases tools.len() - i,
    {
        let ghost prev = views(out@);
        let ghost front = all.subrange(0, i as int).filter(pred);
        assert(all[i as int] == (tools@[i as int].0@, tools@[i as int].1@));
        proof {
            lemma_filter_step(all, pred, i as int);
        }
        if sees_jack(state, tools[i].0.as_str(), client_name) {
            let t = namespaced_tool(tools[i].0.as_str(), &tools[i].1);
            out.push(t);
            assert(views(out@) =~= prev.push(t@));
            assert(front.push(all[i as int]).map_values(merge) =~= prev.push(t@));
        }
        i = i + 1;
    }
    assert(all.subrange(0, all.len() as int) =~= all);
    let ghost jack_tools = views(out@);
    if !state.config.is_forbidden(client_name) {
        let mut own = builtin_admin_tools();
        let ghost own_docs = views(own@);
        out.append(&mut own);
        assert(views(out@) =~= jack_tools + own_docs);
    }
    DispatchOutcome::ok(success_json(req, Json::empty_object().with("tools", Json::from_items(out))))
}

/// A denied client sees no tool at all, neither of a jack nor the gateway's own.
pub proof fn denied_client_sees_no_tools(m: AppModel, client: Seq<char>)
    requires
        m.config.forbids(Some(client)),
    ensures
        visible_tools(m, Some(client)) == Seq::<Doc>::empty(),
{
    let pred = |t: (Seq<char>, Doc)| sees(m.config, t.0, Some(client));
    let all = all_tools(m.upstream);
    let f = all.filter(pred);
    if f.len() > 0 {
        all.lemma_filter_pred(pred, 0);
    }
    assert(visible_tools(m, Some(client)) =~= Seq::<Doc>::empty());
}

// ---- tools/call ----------------------------------------------------------

/// The line on one jack in a listing.
pub open spec fn summary_line(s: SummaryModel) -> Seq<char> {
    "- "@ + s.name + " ("@ + s.transport + "): patched="@ + bool_word(s.patched) + ", status="@ + s.status
        + ", tools="@ + decimal(s.tool_count)
}

/// The listing of all jacks.
pub open spec fn listing(m: AppModel) -> Seq<char> {
    if m.config.jacks.len() == 0 {
        "Patchbay: no jacks configured."@
    } else {
        joined(
            seq!["Patchbay jacks:"@] + m.config.jacks.map_values(|j: JackModel| summary_line(m.summary(j))),
            "\n"@,
        )
    }
}

fn listing_text(state: &AppState) -> (r: String)
    ensures
        r@ == listing(state@),
{
    let jacks = state.list_jacks();
    let ghost m = state@;
    let ghost lines_goal = m.config.jacks.map_values(|j: JackModel| summary_line(m.summary(j)));
    assert(views(jacks@).len() == jacks@.len());
    if jacks.len() == 0 {
        return "Patchbay: no jacks configured.".to_owned();
    }
    let mut lines: Vec<String> = Vec::new();
    lines.push("Patchbay jacks:".to_owned());
    assert(texts(lines@) =~= seq!["Patchbay jacks:"@] + lines_goal.subrange(0, 0));
    let mut i: usize = 0;
    while i < jacks.len()
        invariant
            i <= jacks.len(),
            m == state@,
            m.config.jacks.len() == jacks@.len(),
            views(jacks@) == m.config.jacks.map_values(|j: JackModel| m.summary(j)),
            lines_goal == m.config.jacks.map_values(|j: JackModel| summary_line(m.summary(j))),
            texts(lines@) == seq!["Patchbay jacks:"@] + lines_goal.subrange(0, i as int),
        decreases jacks.len() - i,
    {
        let ghost prev = texts(lines@);
        let j = &jacks[i];
        assert(views(jacks@)[i as int] == j@);
        assert(j@ == m.summary(m.config.jacks[i as int]));
        let mut s = "- ".to_owned();
        s.append(j.name.as_str());
        s.append(" (");
        s.append(j.transport.as_str());
        s.append("): patched=");
        s.append(bool_text(j.patched));
        s.append(", status=");
        s.append(j.status.as_str());
        s.append(", tools=");
        s.append(decimal_text(j.tool_count as u64).as_str());
        assert(s@ == summary_line(j@));
        lines.push(s);
        assert(texts(lines@) =~= prev.push(s@));
        i = i + 1;
        assert(texts(lines@) =~= seq!["Patchbay jacks:"@] + lines_goal.subrange(0, i as int));
    }
    assert(lines_goal.subrange(0, lines_goal.len() as int) =~= lines_goal);
    join_texts(&lines, "\n")
}

/// The answer to a call of a tool that does not exist.
pub open spec fn unknown_tool_outcome(req: RequestModel, name: Seq<char>) -> OutcomeModel {
    ok_outcome(error_body(req.id, INVALID_PARAMS, "unknown tool '"@ + name + "'"@))
}

fn tool_unknown(req: &JsonRpcRequest, name: &str) -> (r: DispatchOutcome)
    ensures
        r@ == unknown_tool_outcome(req@, name@),
{
    let mut s = "unknown tool '".to_owned();
    s.append(name);
    s.append("'");
    DispatchOutcome::ok(error_json(replica_opt(&req.id), INVALID_PARAMS, s))
}

/// Whether it is the client's own list that switches a jack off for it.
pub open spec fn own_list_blocks(c: ConfigModel, jack: Seq<char>, client: Option<Seq<char>>) -> bool {
    client is Some && c.customizes(client->0) && c.client_overrides[client->0].jacks.get(jack) == Some(false)
}

fn blocked_by_own_list(state: &AppState, jack: &str, client: Option<&str>) -> (r: bool)
    ensures
        r == own_list_blocks(state@.config, jack@, name_of(client)),
{
    match client {
        Some(n) => match state.config.client_overrides.get(n) {
            Some(o) => o.enabled && match o.jacks.get(jack) {
                Some(on) => !*on,
                None => false,
            },
            None => false,
        },
        None => false,
    }
}

/// The name of the tool that a call asks for, and its arguments.
pub open spec fn call_name(req: RequestModel) -> Seq<char> {
    match req.params {
        Some(p) => match p.text_member("name"@) {
            Some(n) => n,
            None => Seq::empty(),
        },
        None => Seq::empty(),
    }
}

pub open spec fn call_arguments(req: RequestModel) -> Doc {
    match req.params {
        Some(p) => match p.member("arguments"@) {
            Some(a) => a,
            None => Doc::Null,
        },
        None => Doc::Null,
    }
}

/// What follows a call of the gateway's own tool that removes a jack.
pub open spec fn remove_step(req: RequestModel) -> StepModel {
    match call_arguments(req).text_member("name"@) {
        Some(name) => StepModel::RemoveJack { name },
        None => StepModel::Reply(
            text_outcome(req, "Patchbay: remove_jack requires 'name' (string)."@, true),
        ),
    }
}

/// What follows a call of the gateway's own tool that switches a jack. Only
/// switching off goes through.
pub open spec fn toggle_step(m: AppModel, req: RequestModel) -> StepModel {
    let args = call_arguments(req);
    let patched = match args.member("patched"@) {
        Some(Doc::Bool(b)) => Some(b),
        _ => None,
    };
    match (args.text_member("name"@), patched) {
        (Some(name), Some(on)) => if !has_jack(m.config.jacks, name) {
            StepModel::Reply(text_outcome(req, "Patchbay: jack '"@ + name + "' not found."@, true))
        } else if on {
            StepModel::Reply(text_outcome(req, enable_refusal(name), true))
        } else {
            StepModel::SwitchOff { name }
        },
        _ => StepModel::Reply(
            text_outcome(
                req,
                "Patchbay: toggle_jack requires 'name' (string) and 'patched' (boolean)."@,
                true,
            ),
        ),
    }
}

/// What follows a call of a jack's tool.
pub open spec fn jack_call_step(m: AppModel, req: RequestModel, client: Option<Seq<char>>) -> StepModel {
    let name = call_name(req);
    match parted(name) {
        None => StepModel::Reply(unknown_tool_outcome(req, name)),
        Some((jack, tool)) => if !has_jack(m.config.jacks, jack) {
            StepModel::Reply(unknown_tool_outcome(req, name))
        } else if !m.config.grants(jack, client) {
            StepModel::Reply(
                text_outcome(
                    req,
                    unpatched_words(jack, client, own_list_blocks(m.config, jack, client)),
                    true,
                ),
            )
        } else if !running(m.upstream, jack) {
            StepModel::Reply(
                text_outcome(req, not_running_words(jack, status_text(m.upstream, jack)), true),
            )
        } else {
            match call_route(m.upstream, jack) {
                Ok(c) => StepModel::Route { handle: c, jack, tool, arguments: call_arguments(req) },
                Err(e) => StepModel::Reply(text_outcome(req, call_failed_words(jack, e), true)),
            }
        },
    }
}

/// What follows `tools/call`. A denied client is told so, whatever it calls. The
/// gateway's own tools are known by their exact names and are never sent on. Any
/// other call goes to a jack that exists, is on for this client, and runs.
pub open spec fn call_step(m: AppModel, req: RequestModel, client: Option<Seq<char>>) -> StepModel {
    let name = call_name(req);
    if m.config.forbids(client) {
        StepModel::Reply(text_outcome(req, forbidden_words(client), true))
    } else if name == "patchbay__add_jack"@ {
        StepModel::AddJack { arguments: call_arguments(req) }
    } else if name == "patchbay__remove_jack"@ {
        remove_step(req)
    } else if name == "patchbay__list_jacks"@ {
        StepModel::Reply(text_outcome(req, listing(m), false))
    } else if name == "patchbay__toggle_jack"@ {
        toggle_step(m, req)
    } else {
        jack_call_step(m, req, client)
    }
}

fn arguments_of(req: &JsonRpcRequest) -> (r: Json)
    ensures
        r@ == call_arguments(req@),
{
    match &req.params {
        Some(p) => match p.get("arguments") {
            Some(a) => a.replica(),
            None => Json::Null,
        },
        None => Json::Null,
    }
}

fn call_meta_remove_jack(req: &JsonRpcRequest) -> (r: DispatchStep)
    ensures
        r@ == remove_step(req@),
{
    let args = arguments_of(req);
    match args.text_member("name") {
        Some(n) => DispatchStep::RemoveJack { name: n.clone() },
        None => DispatchStep::Reply(call_tool_error(req, "Patchbay: remove_jack requires 'name' (string).")),
    }
}

fn call_meta_toggle_jack(state: &AppState, req: &JsonRpcRequest) -> (r: DispatchStep)
    ensures
        r@ == toggle_step(state@, req@),
{
    let args = arguments_of(req);
    let patched: Option<bool> = match args.get("patched") {
        Some(Json::Bool(b)) => Some(*b),
        _ => None,
    };
    match (args.text_member("name"), patched) {
        (Some(name), Some(on)) => {
            if find_jack(&state.config.jacks, name.as_str()).is_none() {
                let mut s = "Patchbay: jack '".to_owned();
                s.append(name.as_str());
                s.append("' not found.");
                return DispatchStep::Reply(call_tool_error(req, s.as_str()));
            }
            match check_enable(name.as_str(), on) {
                Ok(_) => DispatchStep::SwitchOff { name: name.clone() },
                Err(e) => DispatchStep::Reply(call_tool_error(req, e.as_str())),
            }
        },
        _ => DispatchStep::Reply(
            call_tool_error(req, "Patchbay: toggle_jack requires 'name' (string) and 'patched' (boolean)."),
        ),
    }
}

fn call_jack_tool(state: &AppState, req: &JsonRpcRequest, name: &str, client_name: Option<&str>) -> (r: DispatchStep)
    requires
        name@ == call_name(req@),
    ensures
        r@ == jack_call_step(state@, req@, name_of(client_name)),
{
    let (jack, tool) = match split_namespaced(name) {
        Some(p) => p,
        None => {
            return DispatchStep::Reply(tool_unknown(req, name));
        },
    };
    if find_jack(&state.config.jacks, jack).is_none() {
        return DispatchStep::Reply(tool_unknown(req, name));
    }
    if !state.config.effective_patched(jack, client_name) {
        let own = blocked_by_own_list(state, jack, client_name);
        let text = unpatched_text(jack, client_name, own);
        return DispatchStep::Reply(call_tool_error(req, text.as_str()));
    }
    if !state.upstream.is_jack_running(jack) {
        let status = state.upstream.status_string(jack);
        let mut s = "Patchbay: server '".to_owned();
        s.append(jack);
        s.append("' is patched but not running (last error: ");
        s.append(not_running_reason(status.as_str()).as_str());
        s.append("). Toggling it off and on in the tray restarts it.");
        return DispatchStep::Reply(call_tool_error(req, s.as_str()));
    }
    match state.upstream.route_call(jack) {
        Ok(c) => DispatchStep::Route {
            handle: c,
            jack: jack.to_owned(),
            tool: tool.to_owned(),
            arguments: arguments_of(req),
        },
        Err(e) => DispatchStep::Reply(call_tool_error(req, call_failed_text(jack, e.as_str()).as_str())),
    }
}

/// `tools/call`: what follows the call of a tool.
pub fn handle_tools_call(state: &AppState, req: &JsonRpcRequest, client_name: Option<&str>) -> (r: DispatchStep)
    ensures
        r@ == call_step(state@, req@, name_of(client_name)),
{
    if state.config.is_forbidden(client_name) {
        return DispatchStep::Reply(call_tool_error(req, forbidden_text(client_name).as_str()));
    }
    let name: String = match &req.params {
        Some(p) => match p.text_member("name") {
            Some(n) => n.clone(),
            None => String::new(),
        },
        None => String::new(),
    };
    let name = name.as_str();
    if same_text(name, "patchbay__add_jack") {
        DispatchStep::AddJack { arguments: arguments_of(req) }
    } else if same_text(name, "patchbay__remove_jack") {
        call_meta_remove_jack(req)
    } else if same_text(name, "patchbay__list_jacks") {
        DispatchStep::Reply(call_tool_text(req, listing_text(state).as_str()))
    } else if same_text(name, "patchbay__toggle_jack") {
        call_meta_toggle_jack(state, req)
    } else {
        call_jack_tool(state, req, name, client_name)
    }
}

/// The answer to a call that was sent on.
pub open spec fn routed_outcome(req: RequestModel, jack: Seq<char>, result: Result<Doc, Seq<char>>) -> OutcomeModel {
    match result {
        Ok(v) => ok_outcome(success_body(req, v)),
        Err(e) => text_outcome(req, call_failed_words(jack, e), true),
    }
}

/// Answer a call that was sent on.
pub fn routed(req: &JsonRpcRequest, jack: &str, result: Result<Json, String>) -> (r: DispatchOutcome)
    ensures
        r@ == routed_outcome(req@, jack@, crate::json::reading(result)),
{
    match result {
        Ok(v) => DispatchOutcome::ok(success_json(req, v)),
        Err(e) => call_tool_error(req, call_failed_text(jack, e.as_str()).as_str()),
    }
}

/// Why a jack that a caller over the gateway describes is not added.
#[derive(Debug, PartialEq, Eq)]
pub enum AddRefusal {
    /// It cannot be added at all.
    Invalid(AddJackError),
    /// It would be switched on at once.
    Policy(String),
}

pub enum RefusalModel {
    Invalid(AddErrorModel),
    Policy(Seq<char>),
}

impl View for AddRefusal {
    type V = RefusalModel;

    open spec fn view(&self) -> RefusalModel {
        match self {
            AddRefusal::Invalid(e) => RefusalModel::Invalid(e@),
            AddRefusal::Policy(t) => RefusalModel::Policy(t@),
        }
    }
}

/// Why a jack that a caller over the gateway describes is not added.
pub open spec fn gateway_add_refusal(c: ConfigModel, jack: JackModel) -> Option<RefusalModel> {
    match add_error(c, jack) {
        Some(e) => Some(RefusalModel::Invalid(e)),
        None => if jack.patched {
            Some(RefusalModel::Policy(add_refusal(jack.name)))
        } else {
            None
        },
    }
}

/// Check a jack that a caller over the gateway describes.
pub fn check_gateway_add(state: &AppState, input: &JackConfigInput) -> (r: Result<(), AddRefusal>)
    ensures
        r is Ok <==> gateway_add_refusal(state@.config, input@) is None,
        r matches Err(e) ==> gateway_add_refusal(state@.config, input@) == Some(e@),
{
    match state.check_new_jack(input) {
        Ok(_) => {},
        Err(e) => {
            return Err(AddRefusal::Invalid(e));
        },
    }
    match check_add(input.name.as_str(), input.patched) {
        Ok(_) => Ok(()),
        Err(e) => Err(AddRefusal::Policy(e)),
    }
}

/// What the caller reads when its jack was not added.
pub open spec fn add_refused_words(why: RefusalModel) -> Seq<char> {
    match why {
        RefusalModel::Invalid(e) => "Patchbay: could not add jack: "@ + e.message(),
        RefusalModel::Policy(t) => t,
    }
}

/// Answer that a jack was not added.
pub fn jack_not_added(req: &JsonRpcRequest, why: &AddRefusal) -> (r: DispatchOutcome)
    ensures
        r@ == text_outcome(req@, add_refused_words(why@), true),
{
    match why {
        AddRefusal::Invalid(e) => {
            let mut s = "Patchbay: could not add jack: ".to_owned();
            s.append(e.message().as_str());
            call_tool_error(req, s.as_str())
        },
        AddRefusal::Policy(t) => call_tool_error(req, t.as_str()),
    }
}

/// Answer that the description of a jack could not be read.
pub fn add_arguments_invalid(req: &JsonRpcRequest, why: &str) -> (r: DispatchOutcome)
    ensures
        r@ == text_outcome(
            req@,
            "Patchbay: invalid add_jack arguments ("@ + why@
                + "). Provide 'name' (string), 'transport' ('stdio' or 'streamable-http'), and that transport's required field ('command' for stdio, 'url' for streamable-http)."@,
            true,
        ),
{
    let mut s = "Patchbay: invalid add_jack arguments (".to_owned();
    s.append(why);
    s.append(
        "). Provide 'name' (string), 'transport' ('stdio' or 'streamable-http'), and that transport's required field ('command' for stdio, 'url' for streamable-http).",
    );
    call_tool_error(req, s.as_str())
}

/// What the caller reads when its jack was added.
pub open spec fn added_words(s: SummaryModel) -> Seq<char> {
    "Patchbay: added jack '"@ + s.name + "' ("@ + s.transport + "), status: "@ + s.status + ", "@ + decimal(
        s.tool_count,
    ) + " tools available."@
}

/// Answer that a jack was added.
pub fn jack_added(req: &JsonRpcRequest, summary: &JackSummary) -> (r: DispatchOutcome)
    ensures
        r@ == text_outcome(req@, added_words(summary@), false),
{
    let mut s = "Patchbay: added jack '".to_owned();
    s.append(summary.name.as_str());
    s.append("' (");
    s.append(summary.transport.as_str());
    s.append("), status: ");
    s.append(summary.status.as_str());
    s.append(", ");
    s.append(decimal_text(summary.tool_count as u64).as_str());
    s.append(" tools available.");
    call_tool_text(req, s.as_str())
}

/// The answer to the removal of a jack.
pub open spec fn removed_outcome(req: RequestModel, name: Seq<char>, error: Option<RemoveErrorModel>) -> OutcomeModel {
    match error {
        None => text_outcome(req, "Patchbay: removed jack '"@ + name + "'."@, false),
        Some(e) => text_outcome(req, "Patchbay: could not remove jack: "@ + e.message(), true),
    }
}

/// Answer the removal of a jack.
pub fn jack_removed(req: &JsonRpcRequest, name: &str, error: Option<&RemoveJackError>) -> (r: DispatchOutcome)
    ensures
        r@ == removed_outcome(
            req@,
            name@,
            match error {
                Some(e) => Some(e@),
                None => None,
            },
        ),
{
    match error {
        None => {
            let mut s = "Patchbay: removed jack '".to_owned();
            s.append(name);
            s.append("'.");
            call_tool_text(req, s.as_str())
        },
        Some(e) => {
            let mut s = "Patchbay: could not remove jack: ".to_owned();
            s.append(e.message().as_str());
            call_tool_error(req, s.as_str())
        },
    }
}

/// What the caller reads when a jack was switched.
pub open spec fn toggled_words(name: Seq<char>, result: ToggleModel) -> Seq<char> {
    "Patchbay: jack '"@ + name + "' is now "@ + (if result.patched {
        "patched (on)"@
    } else {
        "unpatched (off)"@
    }) + " (status: "@ + result.status + ")."@
}

/// Answer that a jack was switched.
pub fn jack_toggled(req: &JsonRpcRequest, name: &str, result: &ToggleResult) -> (r: DispatchOutcome)
    ensures
        r@ == text_outcome(req@, toggled_words(name@, result@), false),
{
    let mut s = "Patchbay: jack '".to_owned();
    s.append(name);
    s.append("' is now ");
    s.append(
        if result.patched {
            "patched (on)"
        } else {
            "unpatched (off)"
        },
    );
    s.append(" (status: ");
    s.append(result.status.as_str());
    s.append(").");
    call_tool_text(req, s.as_str())
}

// ---- dispatch ------------------------------------------------------------

/// The client of a session.
pub open spec fn session_client(m: AppModel, session: Option<Seq<char>>) -> Option<Seq<char>> {
    if session is Some && m.sessions.contains_key(session->0) {
        m.sessions[session->0].client_name
    } else {
        None
    }
}

/// The state with one session changed, where there is such a session.
pub open spec fn with_session(m: AppModel, session: Option<Seq<char>>, f: spec_fn(SessionModel) -> SessionModel) -> AppModel {
    if session is Some && m.sessions.contains_key(session->0) {
        AppModel { sessions: m.sessions.insert(session->0, f(m.sessions[session->0])), ..m }
    } else {
        m
    }
}

/// The state after a message kept its session alive.
pub open spec fn kept_alive(m: AppModel, session: Option<Seq<char>>, now: u64) -> AppModel {
    with_session(m, session, |s: SessionModel| SessionModel { last_seen: now, ..s })
}

/// The state after a message other than `initialize`.
pub open spec fn dispatched_state(m: AppModel, req: RequestModel, session: Option<Seq<char>>, now: u64) -> AppModel {
    if req.method == "notifications/initialized"@ {
        with_session(m, session, |s: SessionModel| SessionModel { last_seen: now, initialized: true, ..s })
    } else {
        kept_alive(m, session, now)
    }
}

/// What follows a message other than `initialize`.
pub open spec fn dispatched_step(m: AppModel, req: RequestModel, session: Option<Seq<char>>) -> StepModel {
    let client = session_client(m, session);
    if req.method == "notifications/initialized"@ {
        StepModel::Reply(accepted_outcome())
    } else if req.method == "tools/list"@ {
        StepModel::Reply(tools_list_outcome(m, req, client))
    } else if req.method == "tools/call"@ {
        call_step(m, req, client)
    } else if req.method == "ping"@ {
        StepModel::Reply(ok_outcome(success_body(req, Doc::empty())))
    } else if req.id is None {
        StepModel::Reply(accepted_outcome())
    } else {
        StepModel::Reply(ok_outcome(error_body(req.id, METHOD_NOT_FOUND, "method not found: "@ + req.method)))
    }
}

fn change_session(state: &mut AppState, id: &str, initialized: bool, now: u64)
    ensures
        final(state)@ == with_session(
            old(state)@,
            Some(id@),
            |s: SessionModel|
                SessionModel { last_seen: now, initialized: s.initialized || initialized, ..s },
        ),
{
    let ghost whole = state@;
    match state.sessions.check_out(id) {
        Some(s) => {
            let mut session = s;
            session.touch(now);
            if initialized {
                session.initialized = true;
            }
            state.sessions.store(id, session);
            let ghost f = |s: SessionModel|
                SessionModel { last_seen: now, initialized: s.initialized || initialized, ..s };
            assert(state@.sessions =~= whole.sessions.insert(id@, f(whole.sessions[id@])));
        },
        None => {
            assert(state@.sessions =~= whole.sessions);
        },
    }
}

/// Take one message of a client. `session` is the id of its session, and none
/// for `initialize`, which makes one. `header_client` is what the header says of
/// who the client is.
pub fn dispatch(
    state: &mut AppState,
    req: &JsonRpcRequest,
    session: Option<&str>,
    header_client: Option<&str>,
    now: u64,
) -> (r: DispatchStep)
    ensures
        req@.method == "initialize"@ ==> exists|id: Seq<char>| {
            &&& id.len() == 36
            &&& final(state)@ == #[trigger] initialized_state(
                kept_alive(old(state)@, name_of(session), now),
                req@,
                name_of(header_client),
                id,
                now,
            )
            &&& r@ == initialize_step(
                kept_alive(old(state)@, name_of(session), now),
                req@,
                name_of(header_client),
                id,
            )
        },
        req@.method != "initialize"@ ==> {
            &&& final(state)@ == dispatched_state(old(state)@, req@, name_of(session), now)
            &&& r@ == dispatched_step(old(state)@, req@, name_of(session))
        },
{
    let ghost whole = state@;
    let method = req.method.as_str();
    if let Some(id) = session {
        let done = same_text(method, "notifications/initialized");
        change_session(state, id, done, now);
    }
    let ghost touched = state@;
    proof {
        lemma_touched(whole, req@, name_of(session), now, touched);
    }
    if same_text(method, "initialize") {
        let r = handle_initialize(state, req, header_client, now);
        return r;
    }
    if same_text(method, "notifications/initialized") {
        return DispatchStep::Reply(DispatchOutcome::accepted());
    }
    let client: Option<String> = match session {
        Some(id) => match state.sessions.get(id) {
            Some(s) => replica_opt(&s.client_name),
            None => None,
        },
        None => None,
    };
    let client_name: Option<&str> = match &client {
        Some(n) => Some(n.as_str()),
        None => None,
    };
    assert(name_of(client_name) == session_client(whole, name_of(session)));
    if same_text(method, "tools/list") {
        let out = handle_tools_list(state, req, client_name);
        proof {
            lemma_sessions_do_not_matter(whole, touched, req@, session_client(whole, name_of(session)));
        }
        DispatchStep::Reply(out)
    } else if same_text(method, "tools/call") {
        let out = handle_tools_call(state, req, client_name);
        proof {
            lemma_sessions_do_not_matter(whole, touched, req@, session_client(whole, name_of(session)));
        }
        out
    } else if same_text(method, "ping") {
        DispatchStep::Reply(DispatchOutcome::ok(success_json(req, Json::empty_object())))
    } else if req.id.is_none() {
        DispatchStep::Reply(DispatchOutcome::accepted())
    } else {
        let mut s = "method not found: ".to_owned();
        s.append(method);
        DispatchStep::Reply(DispatchOutcome::ok(error_json(replica_opt(&req.id), METHOD_NOT_FOUND, s)))
    }
}

proof fn lemma_touched(m: AppModel, req: RequestModel, session: Option<Seq<char>>, now: u64, after: AppModel)
    requires
        session is None ==> after == m,
        session is Some ==> after == with_session(
            m,
            session,
            |s: SessionModel|
                SessionModel {
                    last_seen: now,
                    initialized: s.initialized || req.method == "notifications/initialized"@,
                    ..s
                },
        ),
    ensures
        after == dispatched_state(m, req, session, now),
        req.method != "notifications/initialized"@ ==> after == kept_alive(m, session, now),
        req.method == "initialize"@ ==> after == kept_alive(m, session, now),
{
    reveal_strlit("initialize");
    reveal_strlit("notifications/initialized");
    assert("initialize"@.len() != "notifications/initialized"@.len());
}

proof fn lemma_sessions_do_not_matter(m: AppModel, after: AppModel, req: RequestModel, client: Option<Seq<char>>)
    requires
        after == (AppModel { sessions: after.sessions, ..m }),
    ensures
        tools_list_outcome(after, req, client) == tools_list_outcome(m, req, client),
        call_step(after, req, client) == call_step(m, req, client),
{
    assert(forall|j: JackModel| #[trigger] after.summary(j) == m.summary(j)) by {
        assert forall|j: JackModel| #[trigger] after.summary(j) == m.summary(j) by {
            assert(after.tool_count(j.name) == m.tool_count(j.name));
        }
    }
    assert(after.config.jacks.map_values(|j: JackModel| summary_line(after.summary(j)))
        =~= m.config.jacks.map_values(|j: JackModel| summary_line(m.summary(j))));
    assert(visible_tools(after, client) == visible_tools(m, client));
}

/// Whatever a denied client calls, it is told that it is blocked: no call of it
/// is sent on, and none of the gateway's own tools answers it.
pub proof fn denied_client_calls_nothing(m: AppModel, req: RequestModel, client: Seq<char>)
    requires
        m.config.forbids(Some(client)),
    ensures
        call_step(m, req, Some(client)) == StepModel::Reply(
            text_outcome(req, forbidden_words(Some(client)), true),
        ),
{
}

/// A call is sent on only to a jack that exists, that this client may reach, and
/// that runs.
pub proof fn routed_calls_are_granted(m: AppModel, req: RequestModel, client: Option<Seq<char>>)
    requires
        call_step(m, req, client) is Route,
    ensures
        has_jack(m.config.jacks, call_step(m, req, client)->jack),
        m.config.grants(call_step(m, req, client)->jack, client),
        running(m.upstream, call_step(m, req, client)->jack),
{
}

/// Nothing that arrives over the gateway makes a jack reachable that was not
/// reachable before, nor makes one run that did not have to: neither switching a
/// jack off, nor removing one, nor adding one that passes the check.
pub proof fn gateway_grants_nothing(
    m: AppModel,
    req: RequestModel,
    caller: Option<Seq<char>>,
    added: JackModel,
    jack: Seq<char>,
    client: Option<Seq<char>>,
)
    ensures
        ({
            let after = match call_step(m, req, caller) {
                StepModel::SwitchOff { name } => m.config.with_patched(name, false),
                StepModel::RemoveJack { name } => m.config.without_jack(name),
                StepModel::AddJack { .. } => if gateway_add_refusal(m.config, added) is None {
                    m.config.with_jack(added)
                } else {
                    m.config
                },
                _ => m.config,
            };
            &&& after.grants(jack, client) ==> m.config.grants(jack, client)
            &&& after.should_run(jack) ==> m.config.should_run(jack)
        }),
{
    match call_step(m, req, caller) {
        StepModel::SwitchOff { name } => {
            switching_off_grants_nothing(m.config, name, jack, client);
        },
        StepModel::RemoveJack { name } => {
            removal_grants_nothing(m.config, name, jack, client);
        },
        StepModel::AddJack { .. } => {
            if gateway_add_refusal(m.config, added) is None {
                adding_off_grants_nothing(m.config, added, jack, client);
            }
        },
        _ => {},
    }
}

} // verus!
