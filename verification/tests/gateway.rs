use patchbay::app_state::approvals::ApprovalStep;
use patchbay::app_state::jacks::{AddJackError, JackSummary, RemoveJackError, ToggleResult};
use patchbay::app_state::state::{AppState, GatewayStatus};
use patchbay::config::load::first_run_template;
use patchbay::config::schema::{ClientOverride, JackConfigInput, JackTransport, Sharing};
use patchbay::gateway::builtin::{
    builtin_admin_tools, BUILTIN_ADD_JACK, BUILTIN_LIST_JACKS, BUILTIN_REMOVE_JACK, BUILTIN_TOGGLE_JACK,
};
use patchbay::gateway::handlers::{
    add_arguments_invalid, check_gateway_add, dispatch, jack_added, jack_not_added, jack_removed, jack_toggled,
    routed, AddRefusal, DispatchOutcome, DispatchStep, PREFERRED_PROTOCOL_VERSION,
};
use patchbay::gateway::http::{
    admin_add_jack, admin_add_refused, admin_list_jacks, admin_remove_jack, admin_toggle_jack,
    admin_toggle_refused, client_name_for_log, dead_session_calltool_result, dead_session_toolslist_result,
    debug_toggle, delete_mcp, get_mcp, is_localhost_origin, origin_guard, post_mcp, AdminToggleBody, HttpReply,
    ReplyBody,
};
use patchbay::gateway::jsonrpc::{
    error, success, JsonRpcRequest, INVALID_PARAMS, INVALID_REQUEST, METHOD_NOT_FOUND, PARSE_ERROR,
};
use patchbay::gateway::lifecycle::{bind_address, BindOutcome};
use patchbay::gateway::policy::{check_add, check_enable};
use patchbay::gateway::tools::{long_name_line, namespace, namespaced_tool, split_namespaced, MAX_MERGED_LEN};
use patchbay::json::Json;
use patchbay::name_map::{NameMap, Replica};
use patchbay::upstream::manager::{JackRuntime, JackStatus};

fn obj(members: Vec<(&str, Json)>) -> Json {
    let mut j = Json::empty_object();
    for (k, v) in members {
        j = j.with(k, v);
    }
    j
}

fn text(t: &str) -> Json {
    Json::from_text(t)
}

/// The value at a path of member names and positions; null where there is none.
fn at<'a>(j: &'a Json, path: &[&str]) -> &'a Json {
    let mut here = j;
    for step in path {
        here = match here {
            Json::Array(items) => &items[step.parse::<usize>().unwrap()],
            other => match other.get(step) {
                Some(v) => v,
                None => &Json::Null,
            },
        };
    }
    here
}

fn text_at(j: &Json, path: &[&str]) -> String {
    at(j, path).as_text().unwrap_or_else(|| panic!("no text at {:?}: {:?}", path, j)).clone()
}

fn request(method: &str, id: u64, params: Json) -> JsonRpcRequest {
    JsonRpcRequest {
        jsonrpc: "2.0".to_string(),
        id: Some(Json::from_count(id)),
        method: method.to_string(),
        params: Some(params),
    }
}

fn req(method: &str, id: Option<u64>) -> JsonRpcRequest {
    JsonRpcRequest {
        jsonrpc: "2.0".to_string(),
        id: id.map(Json::from_count),
        method: method.to_string(),
        params: None,
    }
}

fn req_call(jack_tool: &str) -> JsonRpcRequest {
    request("tools/call", 31, obj(vec![("name", text(jack_tool)), ("arguments", obj(vec![]))]))
}

fn state() -> AppState {
    let mut st = AppState::new(first_run_template());
    st.config.require_approval_for_new_clients = false;
    st
}

/// A session of the given client.
fn session(st: &mut AppState, client: Option<&str>) -> String {
    let id = st.sessions.create(0);
    let mut s = st.sessions.check_out(&id).unwrap();
    s.set_client_name(client.map(str::to_string));
    st.sessions.store(&id, s);
    id
}

fn read_input(arguments: &Json) -> Result<JackConfigInput, String> {
    let name = arguments.text_member("name").ok_or("missing field `name`")?.clone();
    let transport = match arguments.text_member("transport").map(|t| t.as_str()) {
        Some("stdio") => JackTransport::Stdio {
            command: arguments.text_member("command").cloned().unwrap_or_default(),
            args: vec![],
            env: NameMap::new(),
        },
        _ => return Err("missing field `transport`".to_string()),
    };
    let patched = at(arguments, &["patched"]) != &Json::Bool(false);
    Ok(JackConfigInput { name, patched, transport, sharing: Sharing::Shared })
}

/// Carries one message out to its answer; every save succeeds.
fn answer(st: &mut AppState, r: &JsonRpcRequest, session: Option<&str>, header: Option<&str>) -> DispatchOutcome {
    match dispatch(st, r, session, header, 0) {
        DispatchStep::Reply(o) => o,
        DispatchStep::Admit { outcome, client, version } => {
            if let Some(name) = client {
                if st.ensure_client_approved(&name) == ApprovalStep::Record {
                    st.record_seen_client(&name, version.as_deref());
                }
            }
            outcome
        }
        DispatchStep::AddJack { arguments } => {
            let input = match read_input(&arguments) {
                Ok(i) => i,
                Err(e) => return add_arguments_invalid(r, &e),
            };
            match check_gateway_add(st, &input) {
                Err(why) => jack_not_added(r, &why),
                Ok(()) => {
                    st.add_jack(&input, Ok(())).unwrap();
                    jack_added(r, &st.add_report(&input.name).0)
                }
            }
        }
        DispatchStep::RemoveJack { name } => match st.begin_remove_jack(&name) {
            Err(e) => jack_removed(r, &name, Some(&e)),
            Ok(_) => {
                st.remove_jack(&name, Ok(())).unwrap();
                jack_removed(r, &name, None)
            }
        },
        DispatchStep::SwitchOff { name } => {
            st.set_patched(&name, false, Ok(()));
            jack_toggled(r, &name, &st.toggle_report(&name, false).0)
        }
        DispatchStep::Route { .. } => panic!("nothing runs here"),
    }
}

fn call_meta(tool: &str, arguments: Json) -> (bool, Option<String>, bool) {
    let mut st = state();
    let sid = session(&mut st, None);
    let r = request("tools/call", 21, obj(vec![("name", text(tool)), ("arguments", arguments)]));
    let body = answer(&mut st, &r, Some(&sid), None).body.expect("tools/call must have a body");
    (
        at(&body, &["result", "isError"]) == &Json::Bool(true),
        at(&body, &["result", "content", "0", "text"]).as_text().cloned(),
        at(&body, &["error"]) != &Json::Null,
    )
}

fn running(st: &mut AppState, jack: &str, handle: u64, tools: Vec<Json>) {
    st.upstream.runtimes = NameMap::new().put(
        jack.to_string(),
        JackRuntime { status: JackStatus::Running, client: Some(handle), tool_cache: tools },
    );
}

fn names_of(body: &Json) -> Vec<String> {
    at(body, &["result", "tools"]).as_array().unwrap().iter().map(|t| text_at(t, &["name"])).collect()
}

#[test]
fn initialize_creates_session_and_advertises_list_changed() {
    let mut st = state();
    let outcome = answer(&mut st, &req("initialize", Some(1)), None, None);
    assert_eq!(outcome.http_status, 200);
    let sid = outcome.new_session_id.expect("initialize must mint a session id");
    assert!(!sid.is_empty());

    let body = outcome.body.expect("initialize must have a body");
    assert_eq!(text_at(&body, &["jsonrpc"]), "2.0");
    assert_eq!(at(&body, &["id"]), &Json::from_count(1));
    assert_eq!(text_at(&body, &["result", "protocolVersion"]), PREFERRED_PROTOCOL_VERSION);
    assert_eq!(at(&body, &["result", "capabilities", "tools", "listChanged"]), &Json::Bool(true));
    assert_eq!(text_at(&body, &["result", "serverInfo", "name"]), "patchbay");
    assert!(at(&body, &["result", "instructions"]).as_text().is_some());

    let s = st.sessions.get(&sid).expect("session registered");
    assert!(!s.is_initialized());
}

#[test]
fn initialize_echoes_supported_client_version() {
    let mut st = state();
    let r = request("initialize", 2, obj(vec![("protocolVersion", text("2025-03-26"))]));
    let outcome = answer(&mut st, &r, None, None);
    assert_eq!(text_at(outcome.body.as_ref().unwrap(), &["result", "protocolVersion"]), "2025-03-26");
    let r = request("initialize", 2, obj(vec![("protocolVersion", text("1999-01-01"))]));
    let outcome = answer(&mut st, &r, None, None);
    assert_eq!(text_at(outcome.body.as_ref().unwrap(), &["result", "protocolVersion"]), "2025-06-18");
}

fn init_req_with_client_info(name: &str, version: Option<&str>) -> JsonRpcRequest {
    let mut ci = vec![("name", text(name))];
    if let Some(v) = version {
        ci.push(("version", text(v)));
    }
    request("initialize", 60, obj(vec![("protocolVersion", text("2025-06-18")), ("clientInfo", obj(ci))]))
}

#[test]
fn initialize_captures_client_info_name_and_records_it() {
    let mut st = state();
    let outcome = answer(&mut st, &init_req_with_client_info("desk-code", Some("1.2.3")), None, None);
    let sid = outcome.new_session_id.expect("session minted");
    let s = st.sessions.get(&sid).expect("session registered");
    assert_eq!(s.client_name, Some("desk-code".to_string()), "clientInfo.name stored on the session");
    assert_eq!(st.config.seen_clients.len(), 1, "recorded on first sight");
    assert_eq!(st.config.seen_clients[0].name, "desk-code");
    assert_eq!(st.config.seen_clients[0].first_seen_version.as_deref(), Some("1.2.3"));
}

#[test]
fn initialize_without_client_info_is_tolerated() {
    let mut st = state();
    let outcome = answer(&mut st, &req("initialize", Some(42)), None, None);
    let sid = outcome.new_session_id.unwrap();
    assert_eq!(st.sessions.get(&sid).unwrap().client_name, None);
    assert!(st.config.seen_clients.is_empty());
}

#[test]
fn initialize_header_overrides_client_info_name() {
    let mut st = state();
    let r = init_req_with_client_info("desk-code", Some("9.9.9"));
    let outcome = answer(&mut st, &r, None, Some("desk-personal"));
    let sid = outcome.new_session_id.expect("session minted");
    let s = st.sessions.get(&sid).expect("session registered");
    assert_eq!(
        s.client_name,
        Some("desk-personal".to_string()),
        "header value takes priority over clientInfo.name"
    );
    assert_eq!(st.config.seen_clients.len(), 1, "recorded on first sight");
    assert_eq!(
        st.config.seen_clients[0].name, "desk-personal",
        "seen_clients records the HEADER identity, not clientInfo.name"
    );
    assert_eq!(
        st.config.seen_clients[0].first_seen_version.as_deref(),
        Some("9.9.9"),
        "version still comes from clientInfo"
    );
}

#[test]
fn initialize_header_absent_falls_back_to_client_info_name() {
    let mut st = state();
    let outcome = answer(&mut st, &init_req_with_client_info("codex", Some("0.1.0")), None, None);
    let sid = outcome.new_session_id.expect("session minted");
    assert_eq!(
        st.sessions.get(&sid).unwrap().client_name,
        Some("codex".to_string()),
        "absent header falls back to clientInfo.name"
    );
    assert_eq!(st.config.seen_clients.len(), 1);
    assert_eq!(st.config.seen_clients[0].name, "codex");
}

#[test]
fn initialize_header_empty_is_treated_as_absent() {
    let mut st = state();
    let outcome = answer(&mut st, &init_req_with_client_info("antigravity", None), None, Some("   "));
    let sid = outcome.new_session_id.expect("session minted");
    assert_eq!(
        st.sessions.get(&sid).unwrap().client_name,
        Some("antigravity".to_string()),
        "whitespace-only header is treated as absent -> clientInfo fallback"
    );
}

#[test]
fn initialize_no_header_no_client_info_is_none() {
    let mut st = state();
    let outcome = answer(&mut st, &req("initialize", Some(61)), None, None);
    let sid = outcome.new_session_id.unwrap();
    assert_eq!(st.sessions.get(&sid).unwrap().client_name, None);
    assert!(st.config.seen_clients.is_empty());
}

#[test]
fn initialize_cleans_the_name_it_takes() {
    let mut st = state();
    let outcome = answer(&mut st, &init_req_with_client_info("<script>", None), None, None);
    let sid = outcome.new_session_id.unwrap();
    assert_eq!(st.sessions.get(&sid).unwrap().client_name.as_deref(), Some("_script_"));
}

#[test]
fn initialize_unidentified_client_is_rejected_when_gate_is_on() {
    let mut st = state();
    st.config.require_approval_for_new_clients = true;
    let outcome = answer(&mut st, &req("initialize", Some(62)), None, None);
    assert!(outcome.new_session_id.is_none(), "no session minted for a refused connection");
    let body = outcome.body.unwrap();
    assert_eq!(at(&body, &["error", "code"]), &Json::from_int(-32000));
    let msg = text_at(&body, &["error", "message"]);
    assert!(msg.contains("identify"), "message should explain what's required, got: {}", msg);
    assert_eq!(st.sessions.sessions.len(), 0);
}

#[test]
fn initialized_marks_session_and_returns_202() {
    let mut st = state();
    let sid = st.sessions.create(0);
    assert!(!st.sessions.get(&sid).unwrap().is_initialized());
    let outcome = answer(&mut st, &req("notifications/initialized", None), Some(&sid), None);
    assert_eq!(outcome.http_status, 202);
    assert!(outcome.body.is_none());
    assert!(st.sessions.get(&sid).unwrap().is_initialized());
}

#[test]
fn tools_list_with_no_running_jacks_still_shows_meta_tools() {
    let mut st = state();
    let sid = session(&mut st, None);
    let outcome = answer(&mut st, &req("tools/list", Some(3)), Some(&sid), None);
    assert_eq!(outcome.http_status, 200);
    let body = outcome.body.unwrap();
    let names = names_of(&body);
    assert!(names.contains(&BUILTIN_ADD_JACK.to_string()), "names: {:?}", names);
    assert!(names.contains(&BUILTIN_REMOVE_JACK.to_string()), "names: {:?}", names);
    assert!(names.contains(&BUILTIN_LIST_JACKS.to_string()), "names: {:?}", names);
    assert!(names.contains(&BUILTIN_TOGGLE_JACK.to_string()), "names: {:?}", names);
    assert!(
        !names.iter().any(|n| n.starts_with("prod__")),
        "unpatched jack must not contribute tools: {:?}",
        names
    );
}

#[test]
fn tools_list_offers_the_tools_of_a_running_granted_jack() {
    let mut st = state();
    running(&mut st, "prod", 7, vec![obj(vec![("name", text("query")), ("description", text("d"))])]);
    let sid = session(&mut st, Some("codex"));
    let body = answer(&mut st, &req("tools/list", Some(3)), Some(&sid), None).body.unwrap();
    assert_eq!(names_of(&body).len(), 4, "prod is switched off");
    st.config.jacks[0].patched = true;
    let body = answer(&mut st, &req("tools/list", Some(3)), Some(&sid), None).body.unwrap();
    assert_eq!(names_of(&body)[0], "prod__query");
    assert_eq!(text_at(&body, &["result", "tools", "0", "description"]), "d");
    assert_eq!(names_of(&body).len(), 5);
}

#[test]
fn tools_call_unnamespaced_is_invalid_params() {
    let mut st = state();
    let sid = session(&mut st, None);
    let r = request("tools/call", 5, obj(vec![("name", text("echo")), ("arguments", obj(vec![]))]));
    let outcome = answer(&mut st, &r, Some(&sid), None);
    assert_eq!(outcome.http_status, 200);
    let body = outcome.body.unwrap();
    assert_eq!(at(&body, &["error", "code"]), &Json::from_int(INVALID_PARAMS));
    assert_eq!(at(&body, &["id"]), &Json::from_count(5));
}

#[test]
fn tools_call_unknown_jack_is_invalid_params() {
    let mut st = state();
    let sid = session(&mut st, None);
    let r = request("tools/call", 6, obj(vec![("name", text("ghost__x")), ("arguments", obj(vec![]))]));
    let body = answer(&mut st, &r, Some(&sid), None).body.unwrap();
    assert_eq!(at(&body, &["error", "code"]), &Json::from_int(INVALID_PARAMS));
    let msg = text_at(&body, &["error", "message"]);
    assert!(msg.contains("unknown tool"), "got: {}", msg);
    assert_eq!(msg, "unknown tool 'ghost__x'");
}

#[test]
fn tools_call_unpatched_jack_returns_call_tool_error() {
    let mut st = state();
    let sid = session(&mut st, None);
    let r = request("tools/call", 7, obj(vec![("name", text("prod__query")), ("arguments", obj(vec![]))]));
    let outcome = answer(&mut st, &r, Some(&sid), None);
    assert_eq!(outcome.http_status, 200);
    let body = outcome.body.unwrap();
    assert_eq!(at(&body, &["error"]), &Json::Null, "unpatched must NOT be a JSON-RPC error");
    assert_eq!(at(&body, &["result", "isError"]), &Json::Bool(true));
    let t = text_at(&body, &["result", "content", "0", "text"]);
    assert!(t.contains("UNPATCHED"), "text: {}", t);
    assert!(t.contains("prod"), "text must name the jack: {}", t);
    assert!(t.contains("Do not retry"), "text must direct the model not to retry: {}", t);
}

#[test]
fn tools_call_patched_but_not_running_returns_call_tool_error() {
    let mut cfg = first_run_template();
    cfg.jacks[0].patched = true;
    let mut st = AppState::new(cfg);
    let sid = session(&mut st, None);
    let r = request("tools/call", 8, obj(vec![("name", text("prod__query")), ("arguments", obj(vec![]))]));
    let body = answer(&mut st, &r, Some(&sid), None).body.unwrap();
    assert_eq!(at(&body, &["error"]), &Json::Null, "not-running must NOT be a JSON-RPC error");
    assert_eq!(at(&body, &["result", "isError"]), &Json::Bool(true));
    let t = text_at(&body, &["result", "content", "0", "text"]);
    assert!(t.contains("patched but not running"), "text: {}", t);
    assert!(t.contains("prod"), "text: {}", t);

    st.upstream.set_failed("prod", "spawn failed".to_string());
    let body = answer(&mut st, &r, Some(&sid), None).body.unwrap();
    assert_eq!(
        text_at(&body, &["result", "content", "0", "text"]),
        "Patchbay: server 'prod' is patched but not running (last error: spawn failed). Toggling it off and on in the tray restarts it."
    );
}

#[test]
fn tools_call_of_a_running_granted_jack_is_routed() {
    let mut st = state();
    st.config.jacks[0].patched = true;
    running(&mut st, "prod", 7, vec![]);
    let sid = session(&mut st, None);
    let arguments = obj(vec![("a", Json::from_count(1))]);
    let r = request("tools/call", 8, obj(vec![("name", text("prod__do__it")), ("arguments", arguments.replica())]));
    assert_eq!(
        dispatch(&mut st, &r, Some(&sid), None, 5),
        DispatchStep::Route { handle: 7, jack: "prod".to_string(), tool: "do__it".to_string(), arguments }
    );
    assert_eq!(st.sessions.get(&sid).unwrap().last_seen, 5, "any request keeps the session alive");
    let ok = routed(&r, "prod", Ok(text("done"))).body.unwrap();
    assert_eq!(text_at(&ok, &["result"]), "done");
    let failed = routed(&r, "prod", Err("timeout".to_string())).body.unwrap();
    assert_eq!(
        text_at(&failed, &["result", "content", "0", "text"]),
        "Patchbay: call to server 'prod' failed (timeout)."
    );
}

#[test]
fn unknown_request_is_method_not_found() {
    let mut st = state();
    let sid = session(&mut st, None);
    let outcome = answer(&mut st, &req("totally/unknown", Some(4)), Some(&sid), None);
    assert_eq!(outcome.http_status, 200);
    let body = outcome.body.unwrap();
    assert_eq!(at(&body, &["error", "code"]), &Json::from_int(METHOD_NOT_FOUND));
    assert_eq!(at(&body, &["id"]), &Json::from_count(4));
}

#[test]
fn ping_returns_empty_result() {
    let mut st = state();
    let sid = session(&mut st, None);
    let outcome = answer(&mut st, &req("ping", Some(11)), Some(&sid), None);
    assert_eq!(outcome.http_status, 200);
    let body = outcome.body.unwrap();
    assert_eq!(at(&body, &["error"]), &Json::Null);
    assert_eq!(at(&body, &["result"]), &Json::empty_object());
    assert_eq!(at(&body, &["id"]), &Json::from_count(11));
}

#[test]
fn unknown_notification_is_silent_202() {
    let mut st = state();
    let sid = session(&mut st, None);
    let outcome = answer(&mut st, &req("notifications/anything", None), Some(&sid), None);
    assert_eq!(outcome.http_status, 202);
    assert!(outcome.body.is_none());
}

#[test]
fn meta_list_jacks_returns_text_summary() {
    let (is_error, t, is_jsonrpc_error) = call_meta(BUILTIN_LIST_JACKS, obj(vec![]));
    assert!(!is_jsonrpc_error);
    assert!(!is_error);
    let t = t.expect("list_jacks must return text");
    assert!(t.contains("prod"), "text: {}", t);
    assert!(t.contains("stdio"), "text: {}", t);
    assert_eq!(t, "Patchbay jacks:\n- prod (stdio): patched=false, status=unknown, tools=0");
}

#[test]
fn meta_toggle_unknown_jack_is_call_tool_error() {
    let (is_error, t, is_jsonrpc_error) =
        call_meta(BUILTIN_TOGGLE_JACK, obj(vec![("name", text("ghost")), ("patched", Json::Bool(true))]));
    assert!(!is_jsonrpc_error, "must NOT be a JSON-RPC error");
    assert!(is_error);
    let t = t.expect("must have text");
    assert!(t.contains("not found"), "text: {}", t);
}

#[test]
fn meta_toggle_jack_missing_patched_is_call_tool_error() {
    let (is_error, t, is_jsonrpc_error) = call_meta(BUILTIN_TOGGLE_JACK, obj(vec![("name", text("prod"))]));
    assert!(!is_jsonrpc_error);
    assert!(is_error);
    assert!(t.unwrap().contains("requires"));
}

#[test]
fn meta_toggle_switches_off_but_never_on() {
    let (is_error, t, _) =
        call_meta(BUILTIN_TOGGLE_JACK, obj(vec![("name", text("prod")), ("patched", Json::Bool(false))]));
    assert!(!is_error);
    assert_eq!(t.unwrap(), "Patchbay: jack 'prod' is now unpatched (off) (status: unknown).");
    let (is_error, t, _) =
        call_meta(BUILTIN_TOGGLE_JACK, obj(vec![("name", text("prod")), ("patched", Json::Bool(true))]));
    assert!(is_error);
    assert_eq!(t.unwrap(), check_enable("prod", true).unwrap_err());
}

#[test]
fn meta_add_jack_invalid_name_is_call_tool_error() {
    let (is_error, t, is_jsonrpc_error) = call_meta(
        BUILTIN_ADD_JACK,
        obj(vec![("name", text("bad name")), ("transport", text("stdio")), ("command", text("npx"))]),
    );
    assert!(!is_jsonrpc_error);
    assert!(is_error);
    let t = t.expect("must have text");
    assert!(t.contains("could not add jack"), "text: {}", t);
}

#[test]
fn meta_add_jack_missing_transport_is_call_tool_error() {
    let (is_error, _text, is_jsonrpc_error) = call_meta(BUILTIN_ADD_JACK, obj(vec![("name", text("newjack"))]));
    assert!(!is_jsonrpc_error);
    assert!(is_error);
}

#[test]
fn meta_add_jack_adds_switched_off_only() {
    let fields = |patched: bool| {
        obj(vec![
            ("name", text("fresh")),
            ("transport", text("stdio")),
            ("command", text("npx")),
            ("patched", Json::Bool(patched)),
        ])
    };
    let (is_error, t, _) = call_meta(BUILTIN_ADD_JACK, fields(false));
    assert!(!is_error);
    assert_eq!(t.unwrap(), "Patchbay: added jack 'fresh' (stdio), status: unknown, 0 tools available.");
    let (is_error, t, _) = call_meta(BUILTIN_ADD_JACK, fields(true));
    assert!(is_error);
    assert!(t.unwrap().contains("\"patched\": false"));
}

#[test]
fn meta_remove_unknown_jack_is_call_tool_error() {
    let (is_error, t, is_jsonrpc_error) = call_meta(BUILTIN_REMOVE_JACK, obj(vec![("name", text("ghost"))]));
    assert!(!is_jsonrpc_error);
    assert!(is_error);
    assert!(t.unwrap().contains("not found"));
    let (is_error, t, _) = call_meta(BUILTIN_REMOVE_JACK, obj(vec![]));
    assert!(is_error);
    assert_eq!(t.unwrap(), "Patchbay: remove_jack requires 'name' (string).");
    let (is_error, t, _) = call_meta(BUILTIN_REMOVE_JACK, obj(vec![("name", text("prod"))]));
    assert!(!is_error);
    assert_eq!(t.unwrap(), "Patchbay: removed jack 'prod'.");
}

#[test]
fn meta_add_jack_is_intercepted_not_routed_as_jack() {
    let (is_error, t, is_jsonrpc_error) = call_meta(
        BUILTIN_ADD_JACK,
        obj(vec![("name", text("bad name")), ("transport", text("stdio")), ("command", text("npx"))]),
    );
    assert!(!is_jsonrpc_error);
    assert!(is_error);
    let t = t.expect("must have text");
    assert!(!t.contains("unknown tool"), "text: {}", t);
}

#[test]
fn meta_tools_describe_their_arguments() {
    let tools = builtin_admin_tools();
    assert_eq!(tools.len(), 4);
    assert_eq!(text_at(&tools[0], &["inputSchema", "required", "1"]), "transport");
    assert_eq!(
        text_at(&tools[0], &["inputSchema", "properties", "sharing", "enum", "1"]),
        "per_client_session"
    );
    assert_eq!(text_at(&tools[3], &["inputSchema", "properties", "patched", "type"]), "boolean");
}

fn state_with_codex_override_off() -> AppState {
    let mut cfg = first_run_template();
    cfg.jacks[0].patched = true;
    cfg.client_overrides = NameMap::new().put(
        "codex".to_string(),
        ClientOverride { enabled: true, jacks: NameMap::new().put("prod".to_string(), false) },
    );
    AppState::new(cfg)
}

#[test]
fn tools_call_per_client_override_uses_client_specific_wording() {
    let mut st = state_with_codex_override_off();
    let sid = session(&mut st, Some("codex"));
    let body = answer(&mut st, &req_call("prod__query"), Some(&sid), None).body.unwrap();
    assert_eq!(at(&body, &["result", "isError"]), &Json::Bool(true));
    let t = text_at(&body, &["result", "content", "0", "text"]);
    assert!(t.contains("disabled for THIS agent"), "text: {}", t);
    assert!(t.contains("codex"), "text names the agent: {}", t);
    assert!(!t.contains("UNPATCHED"), "must NOT use the global wording: {}", t);
}

#[test]
fn tools_call_other_client_still_sees_globally_patched_jack() {
    let mut st = state_with_codex_override_off();
    let sid = session(&mut st, Some("desk-code"));
    let body = answer(&mut st, &req_call("prod__query"), Some(&sid), None).body.unwrap();
    assert_eq!(at(&body, &["result", "isError"]), &Json::Bool(true));
    let t = text_at(&body, &["result", "content", "0", "text"]);
    assert!(t.contains("patched but not running"), "other client reaches the not-running branch: {}", t);
}

fn state_with_forbidden_client() -> AppState {
    let mut cfg = first_run_template();
    cfg.jacks[0].patched = true;
    cfg.forbidden_clients.push("rogue".to_string());
    AppState::new(cfg)
}

#[test]
fn tools_list_forbidden_client_sees_no_tools_at_all() {
    let mut st = state_with_forbidden_client();
    let sid = session(&mut st, Some("rogue"));
    let body = answer(&mut st, &req("tools/list", Some(70)), Some(&sid), None).body.unwrap();
    let tools = at(&body, &["result", "tools"]).as_array().unwrap();
    assert!(tools.is_empty(), "forbidden client must see NO tools (jacks or meta): {:?}", tools);
}

#[test]
fn tools_call_forbidden_client_returns_blocked_error_for_jack_tool() {
    let mut st = state_with_forbidden_client();
    let sid = session(&mut st, Some("rogue"));
    let body = answer(&mut st, &req_call("prod__query"), Some(&sid), None).body.unwrap();
    assert_eq!(at(&body, &["error"]), &Json::Null, "forbidden block must NOT be a JSON-RPC error");
    assert_eq!(at(&body, &["result", "isError"]), &Json::Bool(true));
    let t = text_at(&body, &["result", "content", "0", "text"]);
    assert!(t.contains("blocked"), "text: {}", t);
    assert!(t.contains("rogue"), "text names the agent: {}", t);
    assert!(!t.contains("UNPATCHED"), "must NOT use the unpatched/global wording: {}", t);
}

#[test]
fn tools_call_forbidden_client_blocks_meta_tool_too() {
    let mut st = state_with_forbidden_client();
    let sid = session(&mut st, Some("rogue"));
    let r = request("tools/call", 71, obj(vec![("name", text(BUILTIN_LIST_JACKS)), ("arguments", obj(vec![]))]));
    let body = answer(&mut st, &r, Some(&sid), None).body.unwrap();
    assert_eq!(at(&body, &["result", "isError"]), &Json::Bool(true));
    let t = text_at(&body, &["result", "content", "0", "text"]);
    assert!(t.contains("blocked"), "meta tool also blocked: {}", t);
}

#[test]
fn forbidden_enforcement_does_not_leak_to_other_clients() {
    let mut st = state_with_forbidden_client();
    let sid = session(&mut st, Some("desk-code"));
    let body = answer(&mut st, &req("tools/list", Some(72)), Some(&sid), None).body.unwrap();
    let names = names_of(&body);
    assert!(
        names.contains(&BUILTIN_LIST_JACKS.to_string()),
        "non-forbidden client still sees meta tools: {:?}",
        names
    );
}

#[test]
fn localhost_origins_are_allowed() {
    assert!(is_localhost_origin("http://127.0.0.1:39100"));
    assert!(is_localhost_origin("http://localhost:39100"));
    assert!(is_localhost_origin("http://localhost"));
    assert!(is_localhost_origin("http://[::1]:8080"));
    assert!(is_localhost_origin("http://127.0.0.1:39100/some/path"));
}

#[test]
fn non_localhost_origins_are_rejected() {
    assert!(!is_localhost_origin("https://example.com"));
    assert!(!is_localhost_origin("http://10.0.0.1:39100"));
    assert!(!is_localhost_origin("https://evil.com:443/x"));
}

#[test]
fn a_host_in_brackets_needs_no_port() {
    assert!(is_localhost_origin("http://[::1]"));
    assert!(is_localhost_origin("http://[::1]/path"));
    assert!(is_localhost_origin("[::1]"));
    assert_eq!(origin_guard(Some("http://[::1]")), None);
    assert!(!is_localhost_origin("http://[::2]"));
    assert!(!is_localhost_origin("http://[::2]:8080"));
    assert!(is_localhost_origin("http://[::1]:"));
    assert!(!is_localhost_origin("http://[::1]:a:b"));
    assert!(!is_localhost_origin("http://[::1]example.com"));
    assert!(!is_localhost_origin("http://[::1"));
    assert!(!is_localhost_origin("http://::1"));
}

#[test]
fn a_foreign_origin_is_forbidden_and_none_is_let_through() {
    assert_eq!(origin_guard(None), None);
    assert_eq!(origin_guard(Some("http://localhost:1")), None);
    assert_eq!(
        origin_guard(Some("https://example.com")),
        Some(HttpReply {
            status: 403,
            body: ReplyBody::Text("forbidden: Origin is not a localhost address".to_string()),
        })
    );
}

#[test]
fn dead_session_calltool_result_is_a_model_readable_error() {
    for never_initialized in [true, false] {
        let v = dead_session_calltool_result(never_initialized);
        assert_eq!(at(&v, &["isError"]), &Json::Bool(true));
        let t = text_at(&v, &["content", "0", "text"]);
        assert_eq!(text_at(&v, &["content", "0", "type"]), "text");
        assert!(t.contains("initialize"), "must tell the model to call initialize, got: {}", t);
    }
}

#[test]
fn dead_session_calltool_result_wording_distinguishes_never_vs_expired() {
    let never = text_at(&dead_session_calltool_result(true), &["content", "0", "text"]);
    let expired = text_at(&dead_session_calltool_result(false), &["content", "0", "text"]);
    assert!(never.contains("have not established"));
    assert!(expired.contains("no longer valid"));
}

#[test]
fn dead_session_toolslist_result_exposes_one_synthetic_tool() {
    for never_initialized in [true, false] {
        let v = dead_session_toolslist_result(never_initialized);
        let tools = at(&v, &["tools"]).as_array().unwrap();
        assert_eq!(tools.len(), 1, "no real jacks/meta tools without a resolved session");
        assert_eq!(text_at(&tools[0], &["name"]), "patchbay__session_expired");
        let desc = text_at(&tools[0], &["description"]);
        assert!(desc.contains("initialize"), "must tell the model to call initialize, got: {}", desc);
        assert_eq!(text_at(&tools[0], &["inputSchema", "type"]), "object");
    }
}

fn posted(st: &mut AppState, r: Option<&JsonRpcRequest>, session: Option<&str>) -> DispatchOutcome {
    match post_mcp(st, r, session, None, 0) {
        DispatchStep::Reply(o) => o,
        other => panic!("{:?}", other),
    }
}

#[test]
fn post_without_a_live_session_is_told_to_initialize() {
    let mut st = state();
    let bad = posted(&mut st, None, None);
    assert_eq!(bad.http_status, 400);
    assert_eq!(at(bad.body.as_ref().unwrap(), &["error", "code"]), &Json::from_int(PARSE_ERROR));

    let missing = posted(&mut st, Some(&req("ping", Some(1))), None);
    assert_eq!(missing.http_status, 400);
    assert_eq!(text_at(missing.body.as_ref().unwrap(), &["error", "message"]), "missing Mcp-Session-Id header");

    let gone = posted(&mut st, Some(&req("ping", Some(1))), Some("nope"));
    assert_eq!(gone.http_status, 404);
    assert_eq!(at(gone.body.as_ref().unwrap(), &["error", "code"]), &Json::from_int(INVALID_REQUEST));

    let call = posted(&mut st, Some(&req_call("prod__q")), Some("nope"));
    assert_eq!(call.http_status, 200);
    assert_eq!(at(call.body.as_ref().unwrap(), &["result"]), &dead_session_calltool_result(false));
    let list = posted(&mut st, Some(&req("tools/list", Some(1))), None);
    assert_eq!(at(list.body.as_ref().unwrap(), &["result"]), &dead_session_toolslist_result(true));
}

#[test]
fn the_log_names_the_client_that_the_gateway_sees() {
    let mut st = state();
    let r = init_req_with_client_info("codex", None);
    assert_eq!(client_name_for_log(&st, &r, None, Some(" desk ")).as_deref(), Some("desk"));
    assert_eq!(client_name_for_log(&st, &r, None, None).as_deref(), Some("codex"));
    let sid = session(&mut st, Some("kilo"));
    assert_eq!(client_name_for_log(&st, &req("ping", None), Some(&sid), None).as_deref(), Some("kilo"));
    assert_eq!(client_name_for_log(&st, &req("ping", None), None, Some("desk")), None);
}

#[test]
fn a_stream_opens_on_a_live_session_only() {
    let mut st = state();
    assert_eq!(get_mcp(&mut st, None, None, 0).unwrap_err().status, 400);
    assert_eq!(get_mcp(&mut st, Some("nope"), None, 0).unwrap_err().status, 404);
    let sid = session(&mut st, None);
    st.sessions.mark_initialized(&sid);
    st.sessions.broadcast_tools_list_changed(0);
    let opened = get_mcp(&mut st, Some(&sid), None, 1).unwrap();
    assert_eq!(opened.replay.len(), 1);
    assert_eq!(delete_mcp(&mut st, Some(&sid)).status, 204);
    assert!(st.sessions.get(&sid).is_none());
    assert_eq!(delete_mcp(&mut st, None).status, 400);
}

fn reply_json(r: HttpReply) -> (u16, Json) {
    match r.body {
        ReplyBody::Json(j) => (r.status, j),
        other => panic!("{:?}", other),
    }
}

#[test]
fn admin_replies_carry_their_status() {
    let st = state();
    let (status, body) = reply_json(admin_list_jacks(&st));
    assert_eq!(status, 200);
    assert_eq!(text_at(&body, &["0", "name"]), "prod");
    assert_eq!(at(&body, &["0", "tool_count"]), &Json::from_count(0));

    let summary = JackSummary {
        name: "n".to_string(),
        patched: false,
        transport: "stdio".to_string(),
        status: "stopped".to_string(),
        tool_count: 3,
    };
    let (status, body) = reply_json(admin_add_jack(&summary));
    assert_eq!(status, 201);
    assert_eq!(at(&body, &["tool_count"]), &Json::from_count(3));

    let dup = AddRefusal::Invalid(AddJackError::DuplicateName("prod".to_string()));
    let (status, body) = reply_json(admin_add_refused(&dup));
    assert_eq!(status, 400);
    assert!(text_at(&body, &["error"]).contains("already exists"));
    let (status, _) = reply_json(admin_add_refused(&AddRefusal::Policy("no".to_string())));
    assert_eq!(status, 403);

    assert_eq!(reply_json(admin_remove_jack("n", None)).0, 200);
    let missing = RemoveJackError::NotFound("n".to_string());
    let (status, body) = reply_json(admin_remove_jack("n", Some(&missing)));
    assert_eq!((status, text_at(&body, &["error"]).as_str()), (404, "jack 'n' not found"));
    let failed = RemoveJackError::PersistFailed("disk".to_string());
    let (status, body) = reply_json(admin_remove_jack("n", Some(&failed)));
    assert_eq!((status, text_at(&body, &["error"]).as_str()), (500, "failed to persist config: disk"));

    assert_eq!(reply_json(admin_toggle_refused(&st, "ghost", AdminToggleBody { patched: false }).unwrap()).0, 404);
    assert_eq!(reply_json(admin_toggle_refused(&st, "prod", AdminToggleBody { patched: true }).unwrap()).0, 403);
    assert_eq!(admin_toggle_refused(&st, "prod", AdminToggleBody { patched: false }), None);
    let result = ToggleResult { patched: false, status: "stopped".to_string() };
    let (status, body) = reply_json(admin_toggle_jack("prod", &result));
    assert_eq!((status, text_at(&body, &["name"]).as_str()), (200, "prod"));
    let (_, body) = reply_json(debug_toggle("prod", &result));
    assert_eq!(text_at(&body, &["jack"]), "prod");
}

#[test]
fn success_serializes_to_canonical_envelope() {
    let v = success(Some(Json::from_count(1)), obj(vec![("ok", Json::Bool(true))])).to_json();
    assert_eq!(text_at(&v, &["jsonrpc"]), "2.0");
    assert_eq!(at(&v, &["id"]), &Json::from_count(1));
    assert_eq!(at(&v, &["result", "ok"]), &Json::Bool(true));
    assert_eq!(at(&v, &["error"]), &Json::Null);
}

#[test]
fn error_envelope_has_code_and_message() {
    let v = error(Some(Json::from_count(2)), METHOD_NOT_FOUND, "nope".to_string(), None).to_json();
    assert_eq!(at(&v, &["error", "code"]), &Json::from_int(METHOD_NOT_FOUND));
    assert_eq!(text_at(&v, &["error", "message"]), "nope");
    assert_eq!(at(&v, &["result"]), &Json::Null);
}

#[test]
fn switching_off_is_always_allowed() {
    assert!(check_enable("prod", false).is_ok());
    assert!(check_add("prod", false).is_ok());
}

#[test]
fn switching_on_is_refused_and_says_where_the_human_control_is() {
    let err = check_enable("prod-db", true).expect_err("must refuse");
    assert!(err.contains("prod-db"), "the message must name the jack");
    assert!(err.contains("tray"), "a refusal the model cannot act on just becomes a retry loop: {}", err);
}

#[test]
fn adding_a_server_already_switched_on_is_refused() {
    let err = check_add("prod-db", true).expect_err("must refuse");
    assert!(
        err.contains("\"patched\": false"),
        "the refusal must state the exact way to comply: {}",
        err
    );
}

#[test]
fn namespace_joins_with_double_underscore() {
    assert_eq!(namespace("everything", "echo"), "everything__echo");
}

#[test]
fn split_on_first_separator() {
    assert_eq!(split_namespaced("prod__do__thing"), Some(("prod", "do__thing")));
}

#[test]
fn split_none_without_separator() {
    assert_eq!(split_namespaced("echo"), None);
    assert_eq!(split_namespaced("prod_x"), None);
    assert_eq!(split_namespaced("prod-x"), None);
}

#[test]
fn split_empty_parts_are_well_defined() {
    assert_eq!(split_namespaced("__echo"), Some(("", "echo")));
    assert_eq!(split_namespaced("prod__"), Some(("prod", "")));
}

#[test]
fn a_split_gives_back_what_was_joined() {
    assert_eq!(split_namespaced(&namespace("prod", "_q")), Some(("prod", "_q")));
    // A jack name that ends in an underscore is cut one character early.
    assert_eq!(split_namespaced(&namespace("a_", "b")), Some(("a", "_b")));
}

#[test]
fn namespaced_tool_rewrites_name_only() {
    let tool = obj(vec![
        ("name", text("echo")),
        ("description", text("Echo back")),
        ("inputSchema", obj(vec![("type", text("object"))])),
    ]);
    let out = namespaced_tool("everything", &tool);
    assert_eq!(text_at(&out, &["name"]), "everything__echo");
    assert_eq!(text_at(&out, &["description"]), "Echo back");
    assert_eq!(text_at(&out, &["inputSchema", "type"]), "object");
}

#[test]
fn namespaced_tool_handles_non_object_input() {
    let out = namespaced_tool("prod", &text("not-an-object"));
    assert_eq!(text_at(&out, &["name"]), "prod__");
}

#[test]
fn merged_name_over_64_chars_warns_without_truncating() {
    let long_jack = "j".repeat(60);
    let merged = namespace(&long_jack, "tool123456");
    assert_eq!(merged.chars().count(), 72);
    let tool = obj(vec![("name", text("tool123456"))]);
    let out = namespaced_tool(&long_jack, &tool);
    assert_eq!(text_at(&out, &["name"]), merged, "must NOT truncate");
    let warning = long_name_line(&long_jack, &tool).expect("must warn");
    assert_eq!(
        warning,
        format!("tools: WARNING merged tool name '{}' exceeds 64 chars (truncation-with-hash is a follow-up)", merged)
    );
    let fits = "j".repeat(MAX_MERGED_LEN - 12);
    assert_eq!(long_name_line(&fits, &tool), None);
}

#[test]
fn the_gateway_status_follows_its_own_port_only() {
    let mut st = state();
    st.config.port = 4000;
    assert_eq!(bind_address(4000), "127.0.0.1:4000");
    assert!(st.gateway_bound(4000, BindOutcome::Bound));
    assert_eq!(st.status, GatewayStatus::Running { port: 4000 });
    st.gateway_ended(39100, None);
    assert_eq!(st.status, GatewayStatus::Running { port: 4000 }, "a replaced listener is silent");
    st.gateway_ended(4000, Some("boom".to_string()));
    assert_eq!(st.status, GatewayStatus::Failed { reason: "serve error: boom".to_string() });
    assert!(!st.gateway_bound(4000, BindOutcome::Failed("in use".to_string())));
    match &st.status {
        GatewayStatus::Failed { reason } => assert!(reason.contains("in use"), "{}", reason),
        other => panic!("{:?}", other),
    }
}

#[test]
fn only_wanted_jacks_start_with_the_gateway() {
    let mut st = state();
    assert_eq!(st.startup_jacks(), Vec::<usize>::new());
    st.config.jacks[0].patched = true;
    assert_eq!(st.startup_jacks(), vec![0]);
}
