use patchbay::config::load::first_run_template;
use patchbay::config::schema::{JackConfig, JackTransport, PatchbayConfig, Sharing};
use patchbay::json::{Json, Number};
use patchbay::name_map::NameMap;
use patchbay::upstream::events::{parse_event_data, process_event, EventMeaning, EventReader};
use patchbay::upstream::http::{
    is_session_invalid_body, read_json_response, timeout_error, truncate, FlowAction, HttpClient, ReqErr,
    RequestFlow,
};
use patchbay::upstream::manager::{
    ClientEvent, JackStatus, StartAction, StartEvent, SuperviseAction, SuperviseEvent, UpstreamManager,
};
use patchbay::upstream::stdio::{
    closed_error, error_line, spawn_command, spawn_error, stray_line, Ending, LineAction, StdioClient, MAX_LINE_BYTES,
};
use patchbay::upstream::wire::{call_params, read_response, read_tools, request_json, shutdown_reason};

fn obj(members: Vec<(&str, Json)>) -> Json {
    let mut j = Json::empty_object();
    for (k, v) in members {
        j = j.with(k, v);
    }
    j
}

#[test]
fn parse_event_data_joins_multiple_data_lines() {
    let event = "event: message\ndata: {\"jsonrpc\":\"2.0\",\ndata: \"id\":1}";
    let data = parse_event_data(event).unwrap();
    assert_eq!(data, "{\"jsonrpc\":\"2.0\",\n\"id\":1}");
    match process_event(event, 1) {
        EventMeaning::Answer(v) => assert_eq!(v.get("id"), Some(&Json::from_count(1))),
        other => panic!("{:?}", other),
    }
}

#[test]
fn parse_event_data_none_when_no_data_field() {
    let event = "event: ping\n:comment line\n";
    assert!(parse_event_data(event).is_none());
}

#[test]
fn parse_event_data_strips_optional_leading_space() {
    let event = "data:{\"ok\":true}";
    assert_eq!(parse_event_data(event).unwrap(), "{\"ok\":true}");
}

#[test]
fn is_session_invalid_body_matches_jsonrpc_dash32000() {
    let body = r#"{"jsonrpc":"2.0","id":null,"error":{"code":-32000,"message":"Mcp-Session-Id not found"}}"#;
    assert!(is_session_invalid_body(body));
}

#[test]
fn is_session_invalid_body_matches_tabduct_style_text_fallback() {
    assert!(is_session_invalid_body("No valid session; initialize first"));
    assert!(is_session_invalid_body("no valid session found, please initialize first"));
}

#[test]
fn is_session_invalid_body_matches_eunifymcp_dash32001() {
    let body = r#"{"error":{"code":-32001,"message":"Session not found"},"id":"","jsonrpc":"2.0"}"#;
    assert!(is_session_invalid_body(body));
}

#[test]
fn is_session_invalid_body_goes_by_the_code_alone_where_the_text_says_nothing() {
    assert!(is_session_invalid_body(r#"{"error":{"code":-32099,"message":"SESSION gone"}}"#));
    assert!(!is_session_invalid_body(r#"{"error":{"code":-32100,"message":"SESSION gone"}}"#));
}

#[test]
fn is_session_invalid_body_text_fallback_covers_more_phrasings() {
    assert!(is_session_invalid_body("Session not found"));
    assert!(is_session_invalid_body("session invalid"));
    assert!(is_session_invalid_body("Your session has expired"));
}

#[test]
fn is_session_invalid_body_rejects_unrelated_errors() {
    assert!(!is_session_invalid_body(r#"{"error":{"code":-32050,"message":"internal database error"}}"#));
    assert!(!is_session_invalid_body(r#"{"error":{"code":-32602,"message":"invalid params"}}"#));
    assert!(!is_session_invalid_body("internal server error"));
    assert!(!is_session_invalid_body(""));
}

#[test]
fn truncate_is_char_safe_and_marks_truncation() {
    assert_eq!(truncate("hello world", 5), "hello...");
    assert_eq!(truncate("abc", 5), "abc");
    let _ = truncate("héllo", 2);
    assert_eq!(truncate("héllo", 2), "hé...");
}

#[test]
fn an_event_stream_is_read_across_chunks_and_line_ends() {
    let mut reader = EventReader::new(7);
    let p = reader.feed(&b"data: {\"method\":\"notifications/tools/list_changed\"}\r\n\r\ndata: {\"id\":".to_vec());
    assert_eq!(p.answer, None);
    assert_eq!(p.changes, 1);
    let p = reader.feed(&b"\"7\",\"result\":1}\n\n".to_vec());
    match p.answer {
        Some(v) => assert_eq!(v.get("result"), Some(&Json::from_count(1))),
        None => panic!("the answer may carry its id as text"),
    }
    assert_eq!(
        reader.unanswered(),
        "upstream closed response stream without a result for id 7"
    );
}

#[test]
fn an_event_stream_may_be_cut_anywhere() {
    let stream = "data: {\"method\":\"notifications/tools/list_changed\"}\r\n\r\ndata: {\"id\":7,\r\ndata: \"result\":\"h\u{e9}\"}\r\n\r\nrest".as_bytes();
    for cut in 0..stream.len() + 1 {
        let mut reader = EventReader::new(7);
        let first = reader.feed(&stream[..cut].to_vec());
        let second = reader.feed(&stream[cut..].to_vec());
        let answers: Vec<Json> = first.answer.into_iter().chain(second.answer).collect();
        assert_eq!(answers.len(), 1, "cut at {}", cut);
        assert_eq!(answers[0].text_member("result").unwrap(), "h\u{e9}", "cut at {}", cut);
        assert_eq!(first.changes + second.changes, 1, "cut at {}", cut);
        assert_eq!(reader.buf, b"rest".to_vec(), "cut at {}", cut);
    }
}

#[test]
fn event_data_that_is_no_json_is_skipped_and_told() {
    let mut reader = EventReader::new(1);
    let p = reader.feed(&b"data: [oops\n\ndata: {}\n\ndata: {\"id\":1}\n\ndata: later\n\n".to_vec());
    assert!(p.answer.is_some());
    assert_eq!(p.skipped.len(), 1, "what follows the answer is not read");
    assert_eq!(p.skipped[0].data, "[oops");
    assert_eq!(
        p.skipped[0].line("prod"),
        "[jack:prod] non-JSON SSE data line (expected value at line 1 column 2): [oops"
    );
    let mut reader = EventReader::new(1);
    let long = "x".repeat(300);
    assert!(reader.feed(&format!("data: {}", long).into_bytes()).skipped.is_empty(), "not complete yet");
    let tail = reader.skipped_tail().expect("no JSON");
    assert!(tail.line("prod").ends_with(&format!("): {}...", "x".repeat(200))));
    assert_eq!(reader.finish(), EventMeaning::Nothing);
    assert_eq!(reader.skipped_tail(), None);
}

#[test]
fn an_event_ends_at_either_form_of_a_blank_line() {
    for gap in ["\n\n", "\r\n\r\n", "\n\r\n", "\r\n\n"] {
        let mut reader = EventReader::new(1);
        let p = reader.feed(&format!("data: {{\"id\":1}}{}", gap).into_bytes());
        assert!(p.answer.is_some(), "{:?}", gap);
        assert!(reader.buf.is_empty(), "{:?}", gap);
    }
}

#[test]
fn the_tail_of_an_event_stream_counts_and_broken_bytes_are_replaced() {
    let mut reader = EventReader::new(1);
    let mut bytes = b"data: {\"id\":1,\"result\":\"".to_vec();
    bytes.push(0xff);
    bytes.extend_from_slice(b"\"}");
    assert_eq!(reader.feed(&bytes).answer, None);
    match reader.finish() {
        EventMeaning::Answer(v) => assert_eq!(v.text_member("result").unwrap(), "\u{fffd}"),
        other => panic!("{:?}", other),
    }
}

#[test]
fn only_header_lines_that_may_be_sent_are_sent() {
    let headers = NameMap::new()
        .put("Authorization".to_string(), "Bearer x".to_string())
        .put("bad name".to_string(), "v".to_string())
        .put("X-Bad".to_string(), "line\nbreak".to_string());
    let mut c = HttpClient::connect(headers);
    assert_eq!(
        c.skipped_header_lines("prod"),
        vec![
            "[jack:prod] skipping header 'X-Bad' with invalid value".to_string(),
            "[jack:prod] skipping header with invalid name 'bad name'".to_string(),
        ]
    );
    let out = c.send_once("tools/list", Some(Json::empty_object())).unwrap();
    assert_eq!(out.id, Some(1));
    assert_eq!(
        out.headers,
        vec![
            ("accept".to_string(), "application/json, text/event-stream".to_string()),
            ("content-type".to_string(), "application/json".to_string()),
            ("Authorization".to_string(), "Bearer x".to_string()),
        ]
    );
    assert_eq!(out.body, request_json(1, "tools/list", Some(Json::empty_object())));
    assert!(!c.response_begun(Some("sid"), Some("application/json")));
    c.initialize_done();
    let out = c.send_once("ping", None).unwrap();
    assert_eq!(
        out.headers[3..],
        [
            ("mcp-session-id".to_string(), "sid".to_string()),
            ("mcp-protocol-version".to_string(), "2025-06-18".to_string()),
        ]
    );
    assert!(out.body.get("params").is_none(), "absent params are left out");
    assert!(c.response_begun(None, Some("text/event-stream; charset=utf-8")));
}

#[test]
fn a_lost_session_is_told_from_other_failures() {
    let mut c = HttpClient::connect(NameMap::new());
    c.response_begun(Some("sid"), None);
    assert_eq!(c.response_failed(404, "Session not found"), ReqErr::SessionInvalid);
    assert_eq!(c.session_id, None);
    assert_eq!(ReqErr::SessionInvalid.message(), "upstream session invalid");
    assert_eq!(
        c.response_failed(500, "Session not found"),
        ReqErr::Other("upstream HTTP 500 Internal Server Error: Session not found".to_string())
    );
    assert_eq!(
        c.response_failed(404, "nope"),
        ReqErr::Other("upstream HTTP 404 Not Found: nope".to_string())
    );
    assert_eq!(c.notified(202, Some("s2")), Ok(()));
    assert_eq!(c.session_id.as_deref(), Some("s2"));
    assert_eq!(c.notified(500, None), Err("upstream notify HTTP 500 Internal Server Error".to_string()));
}

#[test]
fn a_closed_connection_sends_nothing() {
    let mut c = HttpClient::connect(NameMap::new());
    c.response_begun(Some("sid"), None);
    let (sid, _headers) = c.shutdown().expect("the session is ended");
    assert_eq!(sid, "sid");
    assert_eq!(c.send_once("ping", None).unwrap_err().message(), "http upstream shut down");
    assert_eq!(c.notify("x", None).unwrap_err(), "http upstream shut down");
    assert_eq!(c.do_initialize().unwrap_err().message(), "http upstream shut down");
}

#[test]
fn a_request_recovers_from_a_lost_session_once() {
    let mut flow = RequestFlow::new("tools/call");
    assert_eq!(flow.on_result(false, Err(ReqErr::SessionInvalid)), FlowAction::Handshake);
    assert_eq!(flow.on_result(true, Ok(Json::Null)), FlowAction::Announce);
    assert_eq!(flow.on_result(true, Ok(Json::Null)), FlowAction::Resend);
    assert_eq!(
        flow.on_result(false, Err(ReqErr::SessionInvalid)),
        FlowAction::Finish(Err("upstream session invalid".to_string()))
    );
    let mut other = RequestFlow::new("tools/call");
    assert_eq!(other.on_result(true, Err(ReqErr::SessionInvalid)), FlowAction::Resend);
    let mut first = RequestFlow::new("initialize");
    assert_eq!(
        first.on_result(false, Err(ReqErr::SessionInvalid)),
        FlowAction::Finish(Err("upstream session invalid".to_string()))
    );
    let mut fine = RequestFlow::new("ping");
    assert_eq!(fine.on_result(true, Ok(Json::from_count(1))), FlowAction::Finish(Ok(Json::from_count(1))));
    assert!(HttpClient::recovers("tools/list", &ReqErr::SessionInvalid));
    assert!(!HttpClient::recovers("tools/list", &ReqErr::Other("x".to_string())));
}

#[test]
fn a_plain_body_is_one_answer() {
    assert_eq!(
        read_json_response("{\"result\":[1,-2,0.5]}"),
        Ok(Json::Array(vec![
            Json::from_count(1),
            Json::Number(Number::Negative(-2)),
            Json::Number(Number::Other("0.5".to_string())),
        ]))
    );
    let e = read_json_response("not json").unwrap_err();
    assert!(e.starts_with("response JSON parse: "), "{}", e);
    assert!(e.ends_with(" (body: not json)"), "{}", e);
    assert_eq!(timeout_error("upstream", 120), "upstream timeout after 120s");
}

#[test]
fn an_answer_is_its_result_or_the_whole_error() {
    assert_eq!(read_response(&obj(vec![("result", Json::from_count(3))])), Ok(Json::from_count(3)));
    assert_eq!(read_response(&Json::empty_object()), Ok(Json::Null));
    assert_eq!(
        read_response(&obj(vec![("error", obj(vec![("code", Json::from_int(-1))]))])),
        Err("upstream error: {\"error\":{\"code\":-1}}".to_string())
    );
    assert_eq!(read_tools(&Json::empty_object()), Ok(vec![]));
    let tools = Json::from_items(vec![Json::from_text("t")]);
    assert_eq!(read_tools(&obj(vec![("tools", tools)])), Ok(vec![Json::from_text("t")]));
    assert_eq!(
        read_tools(&obj(vec![("tools", Json::from_count(5))])),
        Err("tools/list parse: invalid type: integer `5`, expected a sequence".to_string())
    );
}

#[test]
fn a_child_answers_by_line() {
    let mut c = StdioClient::new();
    let (id, line) = c.request("tools/call", Some(call_params("echo", Json::Null))).expect("open");
    assert_eq!(id, 1);
    assert_eq!(
        line,
        "{\"id\":1,\"jsonrpc\":\"2.0\",\"method\":\"tools/call\",\"params\":{\"arguments\":null,\"name\":\"echo\"}}"
    );
    // A request of the server with the same id resolves nothing.
    match c.on_line("{\"id\":1,\"method\":\"ping\"}") {
        LineAction::Reply(l) => assert_eq!(l, "{\"id\":1,\"jsonrpc\":\"2.0\",\"result\":{}}"),
        other => panic!("{:?}", other),
    }
    match c.on_line("{\"id\":\"x\",\"method\":\"roots/list\"}") {
        LineAction::Reply(l) => assert_eq!(
            l,
            "{\"error\":{\"code\":-32601,\"message\":\"method not found\"},\"id\":\"x\",\"jsonrpc\":\"2.0\"}"
        ),
        other => panic!("{:?}", other),
    }
    assert_eq!(c.on_line("{\"method\":\"notifications/tools/list_changed\"}"), LineAction::ToolsChanged);
    assert_eq!(c.on_line("not json"), LineAction::Nothing);
    assert_eq!(
        stray_line("prod", "not json\r\n").unwrap(),
        "[jack:prod] non-JSON stdout line (expected ident at line 1 column 2): not json"
    );
    assert_eq!(stray_line("prod", "{}\n"), None);
    assert_eq!(stray_line("prod", "\n"), None);
    assert_eq!(c.on_line("\r\n"), LineAction::Nothing);
    match c.on_line("{\"id\":1,\"result\":7}\n") {
        LineAction::Resolve { id, response } => {
            assert_eq!(id, 1);
            assert_eq!(response.get("result"), Some(&Json::from_count(7)));
        }
        other => panic!("{:?}", other),
    }
    assert_eq!(c.on_line("{\"id\":1,\"result\":7}"), LineAction::Nothing, "handed out once");
}

fn ending(reason: &str, told: &str, waiting: Vec<i64>) -> Ending {
    Ending { reason: reason.to_string(), told: told.to_string(), waiting }
}

#[test]
fn a_child_that_ends_fails_whoever_waits() {
    let mut c = StdioClient::new();
    let (a, _) = c.request("x", None).expect("open");
    let (b, _) = c.request("y", None).expect("open");
    c.abandon(a);
    assert_eq!(c.on_eof(), ending("stdout closed", "upstream exited", vec![b]));
    assert!(c.pending.is_empty());
    let mut c = StdioClient::new();
    let (a, _) = c.request("x", None).expect("open");
    assert_eq!(c.on_read_error("broken"), ending("read error: broken", "read error: broken", vec![a]));
    let mut c = StdioClient::new();
    let (a, _) = c.request("x", None).expect("open");
    let long = "x".repeat(MAX_LINE_BYTES + 1);
    assert_eq!(c.on_line(&long), LineAction::Exit(ending("line too long", "line too long", vec![a])));
    let mut c = StdioClient::new();
    let (a, _) = c.request("x", None).expect("open");
    c.close();
    assert_eq!(c.notify("n", None), Err("stdin closed (upstream shut down)".to_string()));
    assert_eq!(c.request("y", None), Err("stdin closed (upstream shut down)".to_string()));
    assert_eq!(c.pending, vec![a], "a refused request waits for nothing");
    assert_eq!(c.shutdown(), ending("shutdown", "shutdown", vec![a]));
    assert_eq!(c.request("z", None), Err("stdin closed (upstream shut down)".to_string()));
    assert_eq!(closed_error(), "stdin closed (upstream shut down)");
    assert_eq!(shutdown_reason(), "shutdown");
}

#[test]
fn a_bare_command_goes_through_the_shell_on_windows() {
    let args = vec!["-y".to_string()];
    let c = spawn_command("npx", &args, true);
    assert_eq!(c.program, "cmd");
    assert_eq!(c.args, vec!["/C".to_string(), "npx".to_string(), "-y".to_string()]);
    assert_eq!(spawn_command("node.EXE", &args, true).program, "node.EXE");
    assert_eq!(spawn_command("bin/x", &args, true).program, "bin/x");
    assert_eq!(spawn_command("bin\\x", &args, true).program, "bin\\x");
    assert_eq!(spawn_command("npx", &args, false).program, "npx");
    assert_eq!(spawn_error("npx", &args, "no such file"), "spawn 'npx -y': no such file");
    assert_eq!(error_line("a", "oops\r\n"), Some("[jack:a] oops".to_string()));
    assert_eq!(error_line("a", "\n"), None);
}

fn jack(name: &str, command: &str) -> JackConfig {
    JackConfig {
        name: name.to_string(),
        patched: true,
        transport: JackTransport::Stdio { command: command.to_string(), args: vec![], env: NameMap::new() },
        sharing: Sharing::Shared,
        tools: None,
    }
}

fn config(on: bool) -> PatchbayConfig {
    let mut cfg = first_run_template();
    cfg.jacks[0].patched = on;
    cfg
}

fn started(m: &mut UpstreamManager, client: u64) {
    assert_eq!(m.start_jack(&jack("prod", "npx")).1, StartAction::Spawn);
    assert_eq!(m.start_step("prod", StartEvent::Connected(client), &config(true)), StartAction::Initialize(client));
    assert_eq!(m.start_step("prod", StartEvent::Initialized(client), &config(true)), StartAction::ListTools(client));
    assert_eq!(
        m.start_step("prod", StartEvent::Listed(client, vec![Json::from_text("t")]), &config(true)),
        StartAction::Supervise(client)
    );
}

#[test]
fn a_jack_starts_step_by_step() {
    let mut m = UpstreamManager::new();
    assert_eq!(m.status_string("prod"), "unknown");
    started(&mut m, 1);
    assert!(m.is_jack_running("prod"));
    assert_eq!(m.cached_tools(), vec![("prod".to_string(), Json::from_text("t"))]);
    assert_eq!(m.route_call("prod"), Ok(1));
    assert_eq!(m.route_call("ghost"), Err("unknown jack 'ghost'".to_string()));
    assert_eq!(m.stop_jack("prod"), Some(1));
    assert_eq!(m.status_string("prod"), "stopped");
    assert_eq!(m.route_call("prod"), Err("jack 'prod' is not running (status: Stopped)".to_string()));
    assert_eq!(m.stop_jack("never"), None);
    assert_eq!(m.status_string("never"), "stopped");
}

#[test]
fn a_start_that_fails_says_where() {
    let cases = vec![
        (StartEvent::SpawnFailed("no file".to_string()), "failed: spawn failed: no file"),
        (StartEvent::InitializeFailed(1, "timeout".to_string()), "failed: initialize failed: timeout"),
        (StartEvent::ListFailed(1, "bad".to_string()), "failed: tools/list failed: bad"),
    ];
    for (event, status) in cases {
        let mut m = UpstreamManager::new();
        m.start_jack(&jack("prod", "npx"));
        m.start_step("prod", event, &config(true));
        assert_eq!(m.status_string("prod"), status);
    }
    let mut m = UpstreamManager::new();
    assert_eq!(m.start_jack(&jack("prod", "")), (None, StartAction::Done));
    assert_eq!(m.status_string("prod"), "failed: stdio jack has an empty command");
    assert_eq!(m.start_jack(&jack("bad name", "npx")), (None, StartAction::Done));
    assert_eq!(m.status_string("bad name"), "unknown", "an invalid name never starts");
}

#[test]
fn a_jack_that_is_no_longer_wanted_is_shut_down_after_its_start() {
    let mut m = UpstreamManager::new();
    m.start_jack(&jack("prod", "npx"));
    m.start_step("prod", StartEvent::Connected(1), &config(true));
    assert_eq!(m.start_step("prod", StartEvent::Listed(1, vec![]), &config(false)), StartAction::Shutdown(1));
    assert_eq!(m.status_string("prod"), "stopped");
}

#[test]
fn a_restart_stops_the_old_client_first() {
    let mut m = UpstreamManager::new();
    started(&mut m, 1);
    assert_eq!(m.start_jack(&jack("prod", "npx")), (Some(1), StartAction::Spawn));
    assert_eq!(m.status_string("prod"), "starting");
}

#[test]
fn a_stale_supervisor_changes_nothing() {
    let mut m = UpstreamManager::new();
    started(&mut m, 1);
    m.stop_jack("prod");
    started(&mut m, 2);
    let before = format!("{:?}", m.runtimes);
    assert_eq!(
        m.supervise("prod", 1, SuperviseEvent::Client(ClientEvent::Exited("gone".to_string()))),
        SuperviseAction::End
    );
    assert_eq!(m.supervise("prod", 1, SuperviseEvent::Client(ClientEvent::ToolsListChanged)), SuperviseAction::Wait);
    assert_eq!(format!("{:?}", m.runtimes), before);
    assert_eq!(
        m.supervise("prod", 2, SuperviseEvent::Client(ClientEvent::ToolsListChanged)),
        SuperviseAction::Relist
    );
    assert_eq!(m.supervise("prod", 2, SuperviseEvent::Relisted(vec![])), SuperviseAction::Broadcast);
    assert!(m.cached_tools().is_empty());
    assert_eq!(
        m.supervise("prod", 2, SuperviseEvent::Client(ClientEvent::Exited("gone".to_string()))),
        SuperviseAction::BroadcastAndEnd
    );
    assert_eq!(m.status_string("prod"), "failed: gone");
    m.set_status("prod", JackStatus::Starting);
    assert_eq!(m.status_string("prod"), "starting");
}
