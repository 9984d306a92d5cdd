//! What is owed to whoever calls an upstream server, and to the server.

use vstd::prelude::*;
#[allow(unused_imports)]
use vstd::string::*;

use super::events::{
    data_of, event_data, event_meaning, event_skipped, event_text, gap_at, lf_only, line_data, lines_of, message_meaning,
    read_text, scanned, EventModel,
};
use super::http::{
    cut, failure, flow, header_name_ok, header_notes, header_value_ok, json_outcome, sendable, session_error, status_words, token_byte, FlowModel,
    FlowStage, HttpModel, ReqErrModel,
};
use super::manager::{
    call_route, client_of, failed, first_action, next_action, start_begun, start_stepped, status_text, stopped,
    supervise_action, supervised, with_status, ClientEvent, RuntimeModel, StartAction, StartEvent, StatusModel,
    SuperviseAction, SuperviseEvent,
};
use super::stdio::{
    bare_line, line_action, message_action, pending_after, spawn_model, stray_words, LineModel, SpawnModel,
};
use super::wire::{
    call_doc, handshake_doc, id_after, listed_tools, notification_doc, request_doc, response_result,
};
use crate::config::schema::TransportModel;
use crate::config::validate::{byte_len, valid_jack_name};
use crate::json::{added_member_is_found, json_read, json_written, Doc, Json};
use crate::name_map::{lemma_filter_holds, views};
use crate::numerals::decimal;
use crate::text::{holds, lowered, occurs_at};

verus! {

// ---- messages ------------------------------------------------------------

proof fn lemma_message_keys()
    ensures
        "jsonrpc"@.len() == 7,
        "id"@.len() == 2,
        "method"@.len() == 6,
        "params"@.len() == 6,
        "method"@ != "params"@,
        "name"@.len() == 4,
        "arguments"@.len() == 9,
        "result"@.len() == 6,
        "error"@.len() == 5,
        "code"@.len() == 4,
        "message"@.len() == 7,
        "result"@ != "method"@,
        "result"@ != "params"@,
        "jsonrpc"@ != "message"@,
{
    reveal_strlit("jsonrpc");
    reveal_strlit("id");
    reveal_strlit("method");
    reveal_strlit("params");
    reveal_strlit("name");
    reveal_strlit("arguments");
    reveal_strlit("result");
    reveal_strlit("error");
    reveal_strlit("code");
    reveal_strlit("message");
    assert("method"@[0] == 'm');
    assert("params"@[0] == 'p');
    assert("result"@[0] == 'r');
    assert("jsonrpc"@[0] == 'j');
    assert("message"@[0] == 'm');
}

/// A request carries its id, its method and its parameters as they are; without
/// parameters it has no such member. A notification is the same without an id.
pub proof fn messages_carry_what_they_say(id: i64, method: Seq<char>, params: Option<Doc>)
    ensures
        request_doc(id, method, params).member("jsonrpc"@) == Some(Doc::Text("2.0"@)),
        request_doc(id, method, params).member("id"@) == Some(Doc::Whole(id as int)),
        request_doc(id, method, params).member("method"@) == Some(Doc::Text(method)),
        request_doc(id, method, params).member("params"@) == params,
        notification_doc(method, params).member("jsonrpc"@) == Some(Doc::Text("2.0"@)),
        notification_doc(method, params).member("id"@) is None,
        notification_doc(method, params).member("method"@) == Some(Doc::Text(method)),
        notification_doc(method, params).member("params"@) == params,
{
    lemma_message_keys();
    let d0 = Doc::empty();
    let d1 = d0.with("jsonrpc"@, Doc::Text("2.0"@));
    let d2 = d1.with("id"@, Doc::Whole(id as int));
    let d3 = d2.with("method"@, Doc::Text(method));
    let n2 = d1.with("method"@, Doc::Text(method));
    assert forall|k: Seq<char>| true implies {
        &&& d3.member(k) == (if k == "jsonrpc"@ {
            Some(Doc::Text("2.0"@))
        } else if k == "id"@ {
            Some(Doc::Whole(id as int))
        } else if k == "method"@ {
            Some(Doc::Text(method))
        } else {
            None::<Doc>
        })
        &&& n2.member(k) == (if k == "jsonrpc"@ {
            Some(Doc::Text("2.0"@))
        } else if k == "method"@ {
            Some(Doc::Text(method))
        } else {
            None::<Doc>
        })
        &&& params is Some ==> d3.with("params"@, params->0).member(k) == (if d3.member(k) is Some {
            d3.member(k)
        } else if k == "params"@ {
            params
        } else {
            None::<Doc>
        })
        &&& params is Some ==> n2.with("params"@, params->0).member(k) == (if n2.member(k) is Some {
            n2.member(k)
        } else if k == "params"@ {
            params
        } else {
            None::<Doc>
        })
    } by {
        added_member_is_found(d0, "jsonrpc"@, Doc::Text("2.0"@), k);
        added_member_is_found(d1, "id"@, Doc::Whole(id as int), k);
        added_member_is_found(d2, "method"@, Doc::Text(method), k);
        added_member_is_found(d1, "method"@, Doc::Text(method), k);
        if params is Some {
            added_member_is_found(d3, "params"@, params->0, k);
            added_member_is_found(n2, "params"@, params->0, k);
        }
    }
}

/// A tool call carries the tool's own name and its arguments.
pub proof fn calls_carry_tool_and_arguments(name: Seq<char>, arguments: Doc)
    ensures
        call_doc(name, arguments).member("name"@) == Some(Doc::Text(name)),
        call_doc(name, arguments).member("arguments"@) == Some(arguments),
{
    lemma_message_keys();
    let d0 = Doc::empty();
    let d1 = d0.with("name"@, Doc::Text(name));
    added_member_is_found(d0, "name"@, Doc::Text(name), "name"@);
    added_member_is_found(d0, "name"@, Doc::Text(name), "arguments"@);
    added_member_is_found(d1, "arguments"@, arguments, "name"@);
    added_member_is_found(d1, "arguments"@, arguments, "arguments"@);
}

/// The handshake offers the preferred protocol version and says who asks.
pub proof fn handshakes_say_who_asks()
    ensures
        handshake_doc().member("protocolVersion"@) == Some(Doc::Text("2025-06-18"@)),
        handshake_doc().member("capabilities"@) == Some(Doc::empty()),
        handshake_doc().member("clientInfo"@) is Some,
        handshake_doc().member("clientInfo"@)->0.member("name"@) == Some(Doc::Text("patchbay"@)),
{
    reveal_strlit("protocolVersion");
    reveal_strlit("capabilities");
    reveal_strlit("clientInfo");
    assert("protocolVersion"@.len() == 15 && "capabilities"@.len() == 12 && "clientInfo"@.len() == 10);
    let d0 = Doc::empty();
    let d1 = d0.with("protocolVersion"@, Doc::Text("2025-06-18"@));
    let d2 = d1.with("capabilities"@, Doc::empty());
    let i1 = d0.with("name"@, Doc::Text("patchbay"@));
    let info = i1.with("version"@, Doc::Text("0.1.0"@));
    added_member_is_found(d0, "name"@, Doc::Text("patchbay"@), "name"@);
    added_member_is_found(i1, "version"@, Doc::Text("0.1.0"@), "name"@);
    assert forall|k: Seq<char>| d2.with("clientInfo"@, info).member(k) == (if k == "protocolVersion"@ {
        Some(Doc::Text("2025-06-18"@))
    } else if k == "capabilities"@ {
        Some(Doc::empty())
    } else if k == "clientInfo"@ {
        Some(info)
    } else {
        None::<Doc>
    }) by {
        added_member_is_found(d0, "protocolVersion"@, Doc::Text("2025-06-18"@), k);
        added_member_is_found(d1, "capabilities"@, Doc::empty(), k);
        added_member_is_found(d2, "clientInfo"@, info, k);
    }
    assert(handshake_doc() == d2.with("clientInfo"@, info));
}

/// No two requests in a row have the same id.
pub proof fn ids_rise(id: i64)
    ensures
        id_after(id) != id,
        id < i64::MAX ==> id_after(id) == id + 1,
{
}

/// A response with an error fails, in words that hold it as it came. Any other gives
/// its result, and null where it has none.
pub proof fn responses_give_result_or_error(response: Doc)
    ensures
        response.member("error"@) is Some <==> response_result(response) is Err,
        response_result(response) matches Err(words) ==> holds(words, json_written(response)),
        response.member("error"@) is None && response.member("result"@) is Some ==> response_result(response)
            == Ok::<Doc, Seq<char>>(response.member("result"@)->0),
        response.member("error"@) is None && response.member("result"@) is None ==> response_result(response)
            == Ok::<Doc, Seq<char>>(Doc::Null),
{
    let head = "upstream error: "@;
    let tail = json_written(response);
    assert((head + tail).subrange(head.len() as int, (head + tail).len() as int) =~= tail);
    assert(occurs_at(head + tail, tail, head.len() as int));
}

/// A listing gives the tools that it holds, in its order; without any it gives none.
pub proof fn listings_give_their_tools(result: Doc, tools: Seq<Doc>)
    ensures
        result.member("tools"@) == Some(Doc::Array(tools)) ==> listed_tools(result) == Ok::<Seq<Doc>, Seq<char>>(
            tools,
        ),
        result.member("tools"@) is None ==> listed_tools(result) == Ok::<Seq<Doc>, Seq<char>>(Seq::<Doc>::empty()),
        result.member("tools"@) is Some && !(result.member("tools"@)->0 is Array) ==> listed_tools(result) is Err,
{
}

// ---- a local server ------------------------------------------------------

/// Every response to a request that waits is handed to it, whether it holds a result
/// or an error.
pub proof fn every_response_resolves(pending: Seq<i64>, v: Doc, id: i64)
    requires
        v.member("result"@) is Some || v.member("error"@) is Some,
        v.member("method"@) is None,
        v.member("id"@) == Some(Doc::Whole(id as int)),
        pending.contains(id),
    ensures
        message_action(pending, v) == (LineModel::Resolve { id, response: v }),
{
}

/// A response that nobody waits for, and a message that is neither a response nor a
/// request nor a notice of changed tools, ask for nothing.
pub proof fn other_messages_ask_for_nothing(pending: Seq<i64>, v: Doc)
    ensures
        v.member("method"@) is None && v.member("result"@) is None && v.member("error"@) is None
            ==> message_action(pending, v) is Nothing,
        v.member("method"@) is None && (forall|id: i64|
            #[trigger] pending.contains(id) ==> v.member("id"@) != Some(Doc::Whole(id as int))) ==> message_action(
            pending,
            v,
        ) is Nothing,
{
    if v.member("method"@) is None && (forall|id: i64|
        #[trigger] pending.contains(id) ==> v.member("id"@) != Some(Doc::Whole(id as int))) {
        if let Some(Doc::Whole(n)) = v.member("id"@) {
            if i64::MIN <= n <= i64::MAX {
                assert(!pending.contains(n as i64));
            }
        }
    }
}

/// A request of the server's own is answered at once, under its own id: `ping` with
/// an empty result, and anything else with the error that there is no such method.
pub proof fn server_requests_are_answered(pending: Seq<i64>, v: Doc, method: Seq<char>, id: Doc)
    requires
        v.member("method"@) == Some(Doc::Text(method)),
        v.member("id"@) == Some(id),
        !(id is Null),
    ensures
        exists|reply: Doc|
            {
                &&& message_action(pending, v) == LineModel::Reply(#[trigger] json_written(reply))
                &&& reply.member("id"@) == Some(id)
                &&& method == "ping"@ ==> reply.member("result"@) == Some(Doc::empty()) && reply.member("error"@) is None
                &&& method != "ping"@ ==> {
                    &&& reply.member("result"@) is None
                    &&& reply.member("error"@) is Some
                    &&& reply.member("error"@)->0.member("code"@) == Some(Doc::Whole(-32601))
                }
            },
{
    lemma_message_keys();
    let reply = super::stdio::reply_doc(v);
    let d0 = Doc::empty();
    let d1 = d0.with("jsonrpc"@, Doc::Text("2.0"@));
    let d2 = d1.with("id"@, id);
    let e1 = d0.with("code"@, Doc::Whole(-32601));
    let e = e1.with("message"@, Doc::Text("method not found"@));
    added_member_is_found(d0, "code"@, Doc::Whole(-32601), "code"@);
    added_member_is_found(e1, "message"@, Doc::Text("method not found"@), "code"@);
    assert forall|k: Seq<char>| true implies {
        &&& d2.with("result"@, Doc::empty()).member(k) == (if k == "jsonrpc"@ {
            Some(Doc::Text("2.0"@))
        } else if k == "id"@ {
            Some(id)
        } else if k == "result"@ {
            Some(Doc::empty())
        } else {
            None::<Doc>
        })
        &&& d2.with("error"@, e).member(k) == (if k == "jsonrpc"@ {
            Some(Doc::Text("2.0"@))
        } else if k == "id"@ {
            Some(id)
        } else if k == "error"@ {
            Some(e)
        } else {
            None::<Doc>
        })
    } by {
        added_member_is_found(d0, "jsonrpc"@, Doc::Text("2.0"@), k);
        added_member_is_found(d1, "id"@, id, k);
        added_member_is_found(d2, "result"@, Doc::empty(), k);
        added_member_is_found(d2, "error"@, e, k);
    }
    assert(message_action(pending, v) == LineModel::Reply(json_written(reply)));
    assert(reply == (if method == "ping"@ {
        d2.with("result"@, Doc::empty())
    } else {
        d2.with("error"@, e)
    }));
    let a = d2.with("result"@, Doc::empty());
    let b = d2.with("error"@, e);
    assert(a.member("id"@) == Some(id) && a.member("result"@) == Some(Doc::empty()) && a.member("error"@) is None);
    assert(b.member("id"@) == Some(id) && b.member("result"@) is None && b.member("error"@) == Some(e));
}

/// A notice that the tools changed is heard.
pub proof fn changed_tools_are_heard(pending: Seq<i64>, v: Doc)
    requires
        v.member("method"@) == Some(Doc::Text("notifications/tools/list_changed"@)),
        v.member("id"@) is None || v.member("id"@) == Some(Doc::Null),
    ensures
        message_action(pending, v) is ToolsChanged,
{
}

/// A line is read without its line end, whatever its form. What is no JSON is passed
/// over, and whoever waits goes on waiting.
pub proof fn lines_are_read_without_their_end(pending: Seq<i64>, text: Seq<char>, end: Seq<char>)
    requires
        text.len() > 0,
        text.last() != '\r' && text.last() != '\n',
        forall|i: int| 0 <= i < end.len() ==> (#[trigger] end[i] == '\r' || end[i] == '\n'),
        byte_len(text + end) <= 10_485_760,
    ensures
        json_read(text) matches Ok(v) ==> line_action(pending, text + end) == message_action(pending, v),
        json_read(text) is Err ==> line_action(pending, text + end) is Nothing,
        pending_after(pending, LineModel::Nothing) == pending,
{
    lemma_bare_line(text, end);
}

proof fn lemma_bare_line(text: Seq<char>, end: Seq<char>)
    requires
        text.len() > 0,
        text.last() != '\r' && text.last() != '\n',
        forall|i: int| 0 <= i < end.len() ==> (#[trigger] end[i] == '\r' || end[i] == '\n'),
    ensures
        bare_line(text + end) == text,
    decreases end.len(),
{
    if end.len() == 0 {
        assert(text + end =~= text);
    } else {
        assert((text + end).drop_last() =~= text + end.drop_last());
        assert((text + end).last() == end.last());
        lemma_bare_line(text, end.drop_last());
    }
}

/// A line that is too long ends the connection: everybody who waits is told, and
/// nobody waits any more.
pub proof fn overlong_lines_end_the_connection(pending: Seq<i64>, line: Seq<char>)
    requires
        byte_len(line) > 10_485_760,
    ensures
        line_action(pending, line) matches LineModel::Exit(e) && e.waiting == pending && e.reason == e.told,
        pending_after(pending, line_action(pending, line)).len() == 0,
{
}

/// A command with a path in it, or with `.exe` at its end in whatever case, is run as
/// it is, and so is every command on a system other than Windows. A bare name on
/// Windows is handed to the command interpreter, with all of its arguments behind it.
pub proof fn commands_are_run_with_their_arguments(command: Seq<char>, args: Seq<Seq<char>>, windows: bool, i: int)
    ensures
        !windows ==> spawn_model(command, args, windows) == (SpawnModel { program: command, args }),
        command.contains('/') || command.contains('\\') ==> spawn_model(command, args, windows) == (SpawnModel {
            program: command,
            args,
        }),
        0 <= i < args.len() && spawn_model(command, args, windows).program != command ==> {
            &&& spawn_model(command, args, windows).args.len() == args.len() + 2
            &&& spawn_model(command, args, windows).args[i + 2] == args[i]
        },
        spawn_model(command, args, windows).program != command ==> {
            &&& spawn_model(command, args, windows).program == "cmd"@
            &&& spawn_model(command, args, windows).args[0] == "/C"@
            &&& spawn_model(command, args, windows).args[1] == command
        },
        windows && !command.contains('/') && !command.contains('\\') && !command.contains('.')
            ==> spawn_model(command, args, windows).program == "cmd"@,
{
    reveal_strlit("/");
    reveal_strlit("\\");
    reveal_strlit(".exe");
    if command.contains('/') {
        let k = choose|k: int| 0 <= k < command.len() && command[k] == '/';
        assert(command.subrange(k, k + 1) =~= "/"@);
        assert(occurs_at(command, "/"@, k));
    }
    if command.contains('\\') {
        let k = choose|k: int| 0 <= k < command.len() && command[k] == '\\';
        assert(command.subrange(k, k + 1) =~= "\\"@);
        assert(occurs_at(command, "\\"@, k));
    }
    if !command.contains('/') && !command.contains('\\') && !command.contains('.') {
        assert forall|k: int| !occurs_at(command, "/"@, k) by {
            if occurs_at(command, "/"@, k) {
                assert(command.subrange(k, k + 1)[0] == '/');
                assert(command[k] == '/');
            }
        }
        assert forall|k: int| !occurs_at(command, "\\"@, k) by {
            if occurs_at(command, "\\"@, k) {
                assert(command.subrange(k, k + 1)[0] == '\\');
                assert(command[k] == '\\');
            }
        }
        let low = crate::text::lowered(command);
        let at = low.len() - ".exe"@.len();
        if occurs_at(low, ".exe"@, at) {
            assert(low.subrange(at, at + 4)[0] == '.');
            assert(low[at] == '.');
            assert(crate::text::ascii_lower(command[at]) == '.');
            assert(command[at] == '.');
        }
    }
}

// ---- starting ------------------------------------------------------------

/// Starting a jack with a valid name begins with the step that its transport needs:
/// a local server is spawned, a remote one is connected to. It is over at once only
/// where the command or the url is empty, and then the jack is marked as failed. A
/// start that goes on is marked as starting, and every other jack stays as it is.
pub proof fn starts_begin(rts: Map<Seq<char>, RuntimeModel>, name: Seq<char>, transport: TransportModel, other: Seq<char>)
    requires
        valid_jack_name(name),
    ensures
        ({
            let after = start_begun(rts, name, transport);
            let action = first_action(name, transport);
            &&& transport matches TransportModel::Stdio { command, .. } ==> (command.len() > 0 ==> action
                == StartAction::Spawn)
            &&& transport matches TransportModel::StreamableHttp { url, .. } ==> (url.len() > 0 ==> action
                == StartAction::Connect)
            &&& transport matches TransportModel::Stdio { command, .. } ==> (command.len() == 0 ==> action
                == StartAction::Done)
            &&& transport matches TransportModel::StreamableHttp { url, .. } ==> (url.len() == 0 ==> action
                == StartAction::Done)
            &&& after.contains_key(name)
            &&& after[name].client is None
            &&& action == StartAction::Done ==> (after[name].status matches StatusModel::Failed(why) && why.len() > 0)
            &&& action != StartAction::Done ==> after[name].status is Starting
            &&& other != name ==> after.contains_key(other) == rts.contains_key(other)
            &&& other != name && rts.contains_key(other) ==> after[other] == rts[other]
        }),
{
    reveal_strlit("stdio jack has an empty command");
    reveal_strlit("streamable-http jack has an empty url");
}

/// A start goes on with the client that it got: hands are shaken, then the tools are
/// listed. While it goes on the jack stays as it is.
pub proof fn starts_go_on(rts: Map<Seq<char>, RuntimeModel>, name: Seq<char>, client: u64, needed: bool)
    ensures
        next_action(StartEvent::Connected(client), needed) == StartAction::Initialize(client),
        next_action(StartEvent::Initialized(client), needed) == StartAction::ListTools(client),
        start_stepped(rts, name, StartEvent::Connected(client), needed) == rts,
        start_stepped(rts, name, StartEvent::Initialized(client), needed) == rts,
{
}

/// A start that comes to its end leaves the jack running, with that client and those
/// tools, and calls are sent to that client from then on.
pub proof fn starts_end_in_running(
    rts: Map<Seq<char>, RuntimeModel>,
    name: Seq<char>,
    client: u64,
    tools: Vec<Json>,
    other: Seq<char>,
)
    ensures
        ({
            let after = start_stepped(rts, name, StartEvent::Listed(client, tools), true);
            &&& next_action(StartEvent::Listed(client, tools), true) == StartAction::Supervise(client)
            &&& after.contains_key(name)
            &&& after[name].status is Running
            &&& after[name].client == Some(client)
            &&& after[name].tool_cache == views(tools@)
            &&& call_route(after, name) == Ok::<u64, Seq<char>>(client)
            &&& status_text(after, name) == "running"@
            &&& other != name ==> after.contains_key(other) == rts.contains_key(other)
            &&& other != name && rts.contains_key(other) ==> after[other] == rts[other]
        }),
{
}

/// A start that nobody needs any more, and one that fails after the client was there,
/// shut that client down. The jack does not run; a failure is kept with its reason.
pub proof fn broken_starts_leave_nothing_behind(
    rts: Map<Seq<char>, RuntimeModel>,
    name: Seq<char>,
    client: u64,
    tools: Vec<Json>,
    why: String,
    needed: bool,
    other: Seq<char>,
)
    requires
        !(rts.contains_key(name) && rts[name].status is Running),
    ensures
        next_action(StartEvent::Listed(client, tools), false) == StartAction::Shutdown(client),
        next_action(StartEvent::InitializeFailed(client, why), needed) == StartAction::Shutdown(client),
        next_action(StartEvent::ListFailed(client, why), needed) == StartAction::Shutdown(client),
        next_action(StartEvent::SpawnFailed(why), needed) == StartAction::Done,
        start_stepped(rts, name, StartEvent::Listed(client, tools), false)[name].status is Stopped,
        start_stepped(rts, name, StartEvent::Listed(client, tools), false).contains_key(name),
        forall|event: StartEvent|
            (event == StartEvent::SpawnFailed(why) || event == StartEvent::InitializeFailed(client, why) || event
                == StartEvent::ListFailed(client, why)) ==> {
                let after = #[trigger] start_stepped(rts, name, event, needed);
                &&& after.contains_key(name)
                &&& after[name].status matches StatusModel::Failed(reason) && holds(reason, why@)
                &&& after[name].client is None
                &&& after[name].tool_cache.len() == 0
                &&& other != name ==> after.contains_key(other) == rts.contains_key(other)
                &&& other != name && rts.contains_key(other) ==> after[other] == rts[other]
            },
{
    assert forall|head: Seq<char>| #[trigger] holds(head + why@, why@) by {
        let whole = head + why@;
        assert(whole.subrange(head.len() as int, whole.len() as int) =~= why@);
        assert(occurs_at(whole, why@, head.len() as int));
    }
}

/// Stopping a jack takes its client and its tools away and marks it as stopped, and
/// leaves every other jack alone.
pub proof fn stopping_stops_one(rts: Map<Seq<char>, RuntimeModel>, name: Seq<char>, other: Seq<char>)
    ensures
        stopped(rts, name).contains_key(name),
        stopped(rts, name)[name].status is Stopped,
        stopped(rts, name)[name].client is None,
        stopped(rts, name)[name].tool_cache.len() == 0,
        call_route(stopped(rts, name), name) is Err,
        other != name ==> stopped(rts, name).contains_key(other) == rts.contains_key(other),
        other != name && rts.contains_key(other) ==> stopped(rts, name)[other] == rts[other],
        rts.contains_key(name) ==> client_of(rts, name) == rts[name].client,
        !rts.contains_key(name) ==> client_of(rts, name) is None,
{
}

/// A failed jack keeps its reason, and the words for its status hold it; it has
/// neither client nor tools.
pub proof fn failures_keep_their_reason(rts: Map<Seq<char>, RuntimeModel>, name: Seq<char>, reason: Seq<char>, other: Seq<char>)
    ensures
        failed(rts, name, reason).contains_key(name),
        failed(rts, name, reason)[name] == (RuntimeModel {
            status: StatusModel::Failed(reason),
            client: None,
            tool_cache: Seq::empty(),
        }),
        holds(status_text(failed(rts, name, reason), name), reason),
        occurs_at(status_text(failed(rts, name, reason), name), "failed:"@, 0),
        other != name ==> failed(rts, name, reason).contains_key(other) == rts.contains_key(other),
        other != name && rts.contains_key(other) ==> failed(rts, name, reason)[other] == rts[other],
{
    let head = "failed: "@;
    let whole = head + reason;
    assert(whole.subrange(head.len() as int, whole.len() as int) =~= reason);
    assert(occurs_at(whole, reason, head.len() as int));
    reveal_strlit("failed: ");
    reveal_strlit("failed:");
    assert(whole.subrange(0, 7) =~= "failed:"@);
}

/// A call goes to a jack's client exactly where the jack runs and has one.
pub proof fn calls_go_to_running_clients(rts: Map<Seq<char>, RuntimeModel>, jack: Seq<char>, client: u64)
    ensures
        call_route(rts, jack) == Ok::<u64, Seq<char>>(client) <==> {
            &&& rts.contains_key(jack)
            &&& rts[jack].status is Running
            &&& rts[jack].client == Some(client)
        },
{
}

// ---- watching ------------------------------------------------------------

/// A server that changes its tools is asked for them, and once they came they take
/// the place of the old ones and the change is announced; all else of the jack stays.
/// Where asking fails the old tools stay.
pub proof fn changed_tools_are_fetched_and_announced(
    rts: Map<Seq<char>, RuntimeModel>,
    name: Seq<char>,
    client: u64,
    tools: Vec<Json>,
    why: String,
    other: Seq<char>,
)
    requires
        rts.contains_key(name),
        rts[name].status is Running,
        rts[name].client == Some(client),
    ensures
        supervise_action(rts, name, client, SuperviseEvent::Client(ClientEvent::ToolsListChanged))
            == SuperviseAction::Relist,
        supervised(rts, name, client, SuperviseEvent::Client(ClientEvent::ToolsListChanged)) == rts,
        supervise_action(rts, name, client, SuperviseEvent::Relisted(tools)) == SuperviseAction::Broadcast,
        supervised(rts, name, client, SuperviseEvent::Relisted(tools)).contains_key(name),
        supervised(rts, name, client, SuperviseEvent::Relisted(tools))[name] == (RuntimeModel {
            status: StatusModel::Running,
            client: Some(client),
            tool_cache: views(tools@),
        }),
        other != name ==> supervised(rts, name, client, SuperviseEvent::Relisted(tools)).contains_key(other)
            == rts.contains_key(other),
        other != name && rts.contains_key(other) ==> supervised(rts, name, client, SuperviseEvent::Relisted(tools))[other]
            == rts[other],
        supervise_action(rts, name, client, SuperviseEvent::RelistFailed(why)) == SuperviseAction::Wait,
        supervised(rts, name, client, SuperviseEvent::RelistFailed(why)) == rts,
{
}

/// A server that ends while it runs is marked as failed with its reason, its client
/// and its tools are gone, the change is announced, and its supervisor ends. The
/// supervisor of a client that was replaced ends in silence.
pub proof fn ended_servers_are_marked_and_announced(
    rts: Map<Seq<char>, RuntimeModel>,
    name: Seq<char>,
    client: u64,
    why: String,
    other: Seq<char>,
)
    ensures
        ({
            let event = SuperviseEvent::Client(ClientEvent::Exited(why));
            let after = supervised(rts, name, client, event);
            let owns = rts.contains_key(name) && rts[name].status is Running && rts[name].client == Some(client);
            &&& owns ==> {
                &&& supervise_action(rts, name, client, event) == SuperviseAction::BroadcastAndEnd
                &&& after.contains_key(name)
                &&& after[name].status == StatusModel::Failed(why@)
                &&& after[name].client is None
                &&& after[name].tool_cache.len() == 0
            }
            &&& !owns ==> supervise_action(rts, name, client, event) == SuperviseAction::End && after == rts
            &&& other != name ==> after.contains_key(other) == rts.contains_key(other)
            &&& other != name && rts.contains_key(other) ==> after[other] == rts[other]
        }),
{
}

/// A change of the status keeps the client and the tools.
pub proof fn status_changes_keep_the_rest(
    rts: Map<Seq<char>, RuntimeModel>,
    name: Seq<char>,
    status: StatusModel,
    other: Seq<char>,
)
    ensures
        with_status(rts, name, status).contains_key(name),
        with_status(rts, name, status)[name].status == status,
        rts.contains_key(name) ==> with_status(rts, name, status)[name].client == rts[name].client
            && with_status(rts, name, status)[name].tool_cache == rts[name].tool_cache,
        other != name ==> with_status(rts, name, status).contains_key(other) == rts.contains_key(other),
        other != name && rts.contains_key(other) ==> with_status(rts, name, status)[other] == rts[other],
{
}

// ---- a remote server -----------------------------------------------------

/// Everything that is sent to a remote server carries the headers of its jack that can
/// be sent, the session that the server gave, and once hands are shaken the protocol
/// version; beside them only the two that say what is sent and what is wanted back.
pub proof fn messages_carry_their_headers(m: HttpModel, i: int, pair: (Seq<char>, Seq<char>))
    ensures
        ({
            let all = m.message_headers();
            &&& all.contains(("content-type"@, "application/json"@))
            &&& all.contains(("accept"@, "application/json, text/event-stream"@))
            &&& 0 <= i < m.headers.len() && header_name_ok(m.headers[i].0) && header_value_ok(m.headers[i].1)
                ==> all.contains(m.headers[i])
            &&& m.session_id is Some ==> all.contains(("mcp-session-id"@, m.session_id->0))
            &&& m.initialized ==> all.contains(("mcp-protocol-version"@, "2025-06-18"@))
            &&& all.contains(pair) ==> {
                ||| pair == ("content-type"@, "application/json"@)
                ||| pair == ("accept"@, "application/json, text/event-stream"@)
                ||| m.headers.contains(pair) && header_name_ok(pair.0) && header_value_ok(pair.1)
                ||| m.session_id is Some && pair == ("mcp-session-id"@, m.session_id->0)
                ||| m.initialized && pair == ("mcp-protocol-version"@, "2025-06-18"@)
            }
        }),
{
    let all = m.message_headers();
    let pred = |e: (Seq<char>, Seq<char>)| header_name_ok(e.0) && header_value_ok(e.1);
    let own = sendable(m.headers);
    let shared = m.shared_headers();
    assert(all[0] == ("accept"@, "application/json, text/event-stream"@));
    assert(all[1] == ("content-type"@, "application/json"@));
    if 0 <= i < m.headers.len() {
        lemma_filter_holds(m.headers, pred, m.headers[i]);
        assert(m.headers.contains(m.headers[i]));
        if own.contains(m.headers[i]) {
            let k = choose|k: int| 0 <= k < own.len() && own[k] == m.headers[i];
            assert(all[2 + k] == m.headers[i]);
        }
    }
    if m.session_id is Some {
        assert(all[2 + own.len() as int] == ("mcp-session-id"@, m.session_id->0));
    }
    if m.initialized {
        assert(all[all.len() - 1] == ("mcp-protocol-version"@, "2025-06-18"@));
    }
    if all.contains(pair) {
        let k = choose|k: int| 0 <= k < all.len() && all[k] == pair;
        if 2 <= k < 2 + own.len() {
            assert(own[k - 2] == pair);
            assert(own.contains(pair));
            lemma_filter_holds(m.headers, pred, pair);
        }
    }
}

/// A server that has forgotten the session says so by an error of the request, never
/// by one of its own, and its words name the session. Any other failure is told with
/// its status and the beginning of its body.
pub proof fn forgotten_sessions_are_recognized(status: u16, body: Seq<char>)
    ensures
        400 <= status < 500 && holds(lowered(body), "session"@) && (holds(lowered(body), "not found"@) || holds(
            lowered(body),
            "invalid"@,
        ) || holds(lowered(body), "expired"@) || holds(lowered(body), "initialize first"@) || holds(
            lowered(body),
            "no valid"@,
        )) ==> failure(status, body) is SessionInvalid,
        !(400 <= status < 500) ==> failure(status, body) is Other,
        !holds(lowered(body), "session"@) && json_read(body) is Err ==> failure(status, body) is Other,
        failure(status, body) matches ReqErrModel::Other(words) ==> holds(words, status_words(status)) && (body.len()
            <= 200 ==> holds(words, body)),
{
    let head = "upstream HTTP "@;
    let words = head + status_words(status) + ": "@ + cut(body, 200);
    let a = head.len() as int;
    assert(words.subrange(a, a + status_words(status).len()) =~= status_words(status));
    assert(occurs_at(words, status_words(status), a));
    if body.len() <= 200 {
        let b = (head + status_words(status) + ": "@).len() as int;
        assert(words.subrange(b, words.len() as int) =~= body);
        assert(occurs_at(words, body, b));
    }
}

/// An error of the server's own range whose message names the session says that the
/// session is gone, in whatever case it is written; an error of another range does not,
/// and neither does one that names no session.
pub proof fn session_errors_name_the_session(v: Doc, error: Doc, code: int, message: Seq<char>)
    requires
        v.member("error"@) == Some(error),
        error.member("code"@) == Some(Doc::Whole(code)),
        error.member("message"@) == Some(Doc::Text(message)),
    ensures
        session_error(v) <==> -32099 <= code <= -32000 && holds(lowered(message), "session"@),
{
}

/// A request whose session was forgotten is sent once more, after a new handshake that
/// is announced, and its answer is the answer to the caller. Where somebody else made
/// the new session meanwhile it is sent again at once. A handshake itself is not
/// repeated, and neither is a request that was sent again.
pub proof fn forgotten_sessions_are_opened_again(method: Seq<char>, v: Doc, w: Doc, why: Seq<char>, has_session: bool)
    requires
        method != "initialize"@,
    ensures
        flow(FlowStage::First, method, false, Err(ReqErrModel::SessionInvalid)) == (
            FlowStage::Handshaking,
            FlowModel::Handshake,
        ),
        flow(FlowStage::First, method, true, Err(ReqErrModel::SessionInvalid)) == (FlowStage::Retrying, FlowModel::Resend),
        flow(FlowStage::Handshaking, method, has_session, Ok(w)) == (FlowStage::Announcing, FlowModel::Announce),
        flow(FlowStage::Announcing, method, has_session, Ok(w)) == (FlowStage::Retrying, FlowModel::Resend),
        flow(FlowStage::Retrying, method, has_session, Ok(v)).1 == FlowModel::Finish(Ok(v)),
        flow(FlowStage::Retrying, method, has_session, Err(ReqErrModel::SessionInvalid)).1 matches FlowModel::Finish(r)
            && r is Err,
        flow(FlowStage::First, method, has_session, Ok(v)).1 == FlowModel::Finish(Ok(v)),
        flow(FlowStage::First, method, has_session, Err(ReqErrModel::Other(why))).1 == FlowModel::Finish(Err(why)),
        flow(FlowStage::Handshaking, method, has_session, Err(ReqErrModel::Other(why))).1 == FlowModel::Finish(Err(why)),
        flow(FlowStage::Announcing, method, has_session, Err(ReqErrModel::Other(why))).1 == FlowModel::Finish(Err(why)),
        flow(FlowStage::Retrying, method, has_session, Err(ReqErrModel::Other(why))).1 == FlowModel::Finish(Err(why)),
        flow(FlowStage::First, "initialize"@, has_session, Err(ReqErrModel::SessionInvalid)).1 matches
            FlowModel::Finish(r) && r is Err,
{
}

/// A plain answer is read as the message that it is; what is no JSON fails, with the
/// reason and the beginning of what came.
pub proof fn plain_answers_are_read(body: Seq<char>)
    ensures
        json_read(body) matches Ok(v) ==> json_outcome(body) == response_result(v),
        json_read(body) matches Err(why) ==> (json_outcome(body) matches Err(words) && holds(words, why) && (body.len()
            <= 200 ==> holds(words, body))),
{
    if let Err(why) = json_read(body) {
        let head = "response JSON parse: "@;
        let words = head + why + " (body: "@ + cut(body, 200) + ")"@;
        assert(words.subrange(head.len() as int, (head.len() + why.len()) as int) =~= why);
        assert(occurs_at(words, why, head.len() as int));
        if body.len() <= 200 {
            let b = (head + why + " (body: "@).len() as int;
            assert(words.subrange(b, b + body.len()) =~= body);
            assert(occurs_at(words, body, b));
        }
    }
}

/// A text that is cut keeps its beginning and says that it was cut; a short one stays.
pub proof fn cutting_keeps_the_beginning(s: Seq<char>, n: nat)
    ensures
        s.len() <= n ==> cut(s, n) == s,
        s.len() > n ==> cut(s, n).subrange(0, n as int) == s.subrange(0, n as int) && cut(s, n).len() == n + 3,
{
    reveal_strlit("...");
    if s.len() > n {
        assert(cut(s, n).subrange(0, n as int) =~= s.subrange(0, n as int));
    }
}

// ---- events --------------------------------------------------------------

/// What a line adds to its event: the text behind `data:`, without one space in front.
/// Any other line adds nothing.
pub proof fn data_lines_carry_their_text(x: Seq<char>, other: Seq<char>)
    ensures
        line_data("data: "@ + x) == Some(x),
        x.len() == 0 || x[0] != ' ' ==> line_data("data:"@ + x) == Some(x),
        !occurs_at(other, "data:"@, 0) ==> line_data(other) is None,
{
    reveal_strlit("data: ");
    reveal_strlit("data:");
    let a = "data: "@ + x;
    assert(a.subrange(0, 5) =~= "data:"@);
    assert(a.subrange(5, a.len() as int) =~= seq![' '] + x);
    assert((seq![' '] + x).drop_first() =~= x);
    let b = "data:"@ + x;
    assert(b.subrange(0, 5) =~= "data:"@);
    assert(b.subrange(5, b.len() as int) =~= x);
}

/// A text is read line by line: what stands before the first line feed is the first
/// line, without a carriage return at its end, and the rest is read on.
pub proof fn lines_are_read_in_turn(line: Seq<char>, rest: Seq<char>)
    requires
        !line.contains('\n'),
    ensures
        line.len() == 0 || line.last() != '\r' ==> lines_of(line + seq!['\n'] + rest) == seq![line] + lines_of(rest),
        lines_of(line + seq!['\r', '\n'] + rest) == seq![line] + lines_of(rest),
        line.len() > 0 ==> lines_of(line) == seq![line],
{
    let a = line + seq!['\n'] + rest;
    let n = line.len() as int;
    assert forall|k: int| 0 <= k < n implies line[k] != '\n' by {
        if line[k] == '\n' {
            assert(line.contains('\n'));
        }
    }
    super::events::lemma_is_line_end(a, n);
    assert(a.subrange(0, n) =~= line);
    assert(a.subrange(n + 1, a.len() as int) =~= rest);
    let b = line + seq!['\r', '\n'] + rest;
    super::events::lemma_is_line_end(b, n + 1);
    assert(b.subrange(0, n + 1) =~= line.push('\r'));
    assert(line.push('\r').drop_last() =~= line);
    assert(b.subrange(n + 2, b.len() as int) =~= rest);
    super::events::lemma_is_line_end(line, n);
}

/// The data of an event is that of its lines, one under the other.
pub proof fn event_data_is_joined(lines: Seq<Seq<char>>, line: Seq<char>, x: Seq<char>)
    ensures
        line_data(line) == Some(x) ==> data_of(lines.push(line)) == data_of(lines).push(x),
        line_data(line) is None ==> data_of(lines.push(line)) == data_of(lines),
        data_of(Seq::empty()) == Seq::<Seq<char>>::empty(),
{
    assert(lines.push(line).drop_last() =~= lines);
}

/// The answer to a request is the message with its id, as a number or as that number
/// written out; a notice that the tools changed is heard; any other message is not for
/// whoever waits.
pub proof fn answers_are_known_by_their_id(v: Doc, id: i64)
    ensures
        v.member("id"@) == Some(Doc::Whole(id as int)) ==> message_meaning(v, id) == EventModel::Answer(v),
        id >= 0 && v.member("id"@) == Some(Doc::Text(decimal(id as nat))) ==> message_meaning(v, id)
            == EventModel::Answer(v),
        v.member("id"@) is None && v.member("method"@) == Some(Doc::Text("notifications/tools/list_changed"@))
            ==> message_meaning(v, id) is ToolsChanged,
        message_meaning(v, id) matches EventModel::Answer(w) ==> w == v && v.member("id"@) is Some && (v.member("id"@)
            == Some(Doc::Whole(id as int)) || v.member("id"@)->0 is Text),
        v.member("id"@) is None && v.member("method"@) is None ==> message_meaning(v, id) is Nothing,
{
}

/// A stream is read event by event, up to the answer: an event that is complete is
/// judged by what it means, an answer ends the reading there, a notice of changed tools
/// is counted, and anything else is passed over.
pub proof fn events_are_read_in_turn(event: Seq<u8>, rest: Seq<u8>, id: i64)
    requires
        forall|k: int| 0 <= k < event.len() - 1 ==> !(#[trigger] event[k] == 10 && (event[k + 1] == 10 || event[k + 1] == 13)),
        event.len() > 0 ==> event.last() != 10,
    ensures
        ({
            let s = scanned(event + seq![10u8, 10u8] + rest, id);
            match event_meaning(event_text(event), id) {
                EventModel::Answer(v) => s.answer == Some(v) && s.rest == rest && s.changes == 0,
                EventModel::ToolsChanged => s.answer == scanned(rest, id).answer && s.rest == scanned(rest, id).rest
                    && s.changes == scanned(rest, id).changes + 1,
                EventModel::Nothing => s == scanned(rest, id),
            }
        }),
        scanned(event, id).answer is None,
        scanned(event, id).rest == event,
{
    let whole = event + seq![10u8, 10u8] + rest;
    let n = event.len() as int;
    assert forall|k: int| 0 <= k < n implies #[trigger] gap_at(whole, k) == 0 by {
        if k < n - 1 {
            assert(whole[k] == event[k] && whole[k + 1] == event[k + 1]);
        } else {
            assert(whole[k] == event.last());
        }
    }
    assert(gap_at(whole, n) == 2);
    super::events::lemma_is_event_end(whole, n);
    assert(whole.subrange(0, n) =~= event);
    assert(whole.subrange(n + 2, whole.len() as int) =~= rest);
    assert forall|k: int| 0 <= k < n implies #[trigger] gap_at(event, k) == 0 by {}
    super::events::lemma_is_event_end(event, n);
}

/// Bytes that are text are read as that text.
pub proof fn bytes_are_read_as_their_text(s: Seq<char>)
    ensures
        read_text(vstd::utf8::encode_utf8(s)) == s,
{
    vstd::utf8::encode_utf8_valid_utf8(s);
    vstd::utf8::encode_utf8_decode_utf8(s);
}

/// Every carriage return with a line feed behind it is read as a line feed, and all else
/// as it stands.
pub proof fn line_ends_are_made_one(a: Seq<char>, b: Seq<char>)
    ensures
        lf_only(a + seq!['\r', '\n'] + b) == lf_only(a) + seq!['\n'] + lf_only(b),
        !a.contains('\r') ==> lf_only(a) == a,
    decreases a.len(),
{
    let whole = a + seq!['\r', '\n'] + b;
    if a.len() == 0 {
        assert(whole.subrange(2, whole.len() as int) =~= b);
        assert(lf_only(a) + seq!['\n'] + lf_only(b) =~= seq!['\n'] + lf_only(b));
    } else if a.len() >= 2 && a[0] == '\r' && a[1] == '\n' {
        let rest = a.subrange(2, a.len() as int);
        line_ends_are_made_one(rest, b);
        assert(whole.subrange(2, whole.len() as int) =~= rest + seq!['\r', '\n'] + b);
        assert(seq!['\n'] + (lf_only(rest) + seq!['\n'] + lf_only(b)) =~= (seq!['\n'] + lf_only(rest)) + seq!['\n']
            + lf_only(b));
        assert(a.contains('\r'));
    } else {
        let rest = a.drop_first();
        line_ends_are_made_one(rest, b);
        assert(whole.drop_first() =~= rest + seq!['\r', '\n'] + b);
        assert(seq![a[0]] + (lf_only(rest) + seq!['\n'] + lf_only(b)) =~= (seq![a[0]] + lf_only(rest)) + seq!['\n']
            + lf_only(b));
        if a.len() == 1 {
            assert(whole[1] == '\r');
        }
        if !a.contains('\r') {
            assert(!rest.contains('\r')) by {
                if rest.contains('\r') {
                    let k = choose|k: int| 0 <= k < rest.len() && rest[k] == '\r';
                    assert(a[k + 1] == '\r');
                }
            }
            assert(seq![a[0]] + rest =~= a);
        }
    }
}

/// An event of one line of data means what that data means: the message that it is, and
/// nothing where it is none; such data is told with the reason.
pub proof fn an_event_is_what_its_data_says(text: Seq<char>, id: i64)
    requires
        !text.contains('\n'),
        text.len() > 0,
        text.last() != '\r',
    ensures
        event_data("data: "@ + text) == Some(text),
        json_read(text) matches Ok(v) ==> event_meaning("data: "@ + text, id) == message_meaning(v, id),
        json_read(text) is Err ==> event_meaning("data: "@ + text, id) is Nothing,
        json_read(text) matches Err(why) ==> (event_skipped("data: "@ + text) matches Some(d) && d.data == text && d.why
            == why),
        json_read(text) is Ok ==> event_skipped("data: "@ + text) is None,
{
    reveal_strlit("data: ");
    let event = "data: "@ + text;
    assert(!event.contains('\n')) by {
        if event.contains('\n') {
            let k = choose|k: int| 0 <= k < event.len() && event[k] == '\n';
            if k >= 6 {
                assert(text[k - 6] == '\n');
            }
        }
    }
    lines_are_read_in_turn(event, Seq::empty());
    data_lines_carry_their_text(text, Seq::empty());
    let none = Seq::<Seq<char>>::empty();
    event_data_is_joined(none, event, text);
    assert(none.push(event) =~= seq![event]);
    assert(data_of(seq![event]) =~= seq![text]);
}

/// A header that cannot be sent is told of by name, and one that can is not told of.
pub proof fn skipped_headers_are_told(jack: Seq<char>, pairs: Seq<(Seq<char>, Seq<char>)>, i: int)
    ensures
        0 <= i < pairs.len() && !(header_name_ok(pairs[i].0) && header_value_ok(pairs[i].1)) ==> exists|k: int|
            0 <= k < header_notes(jack, pairs).len() && holds(#[trigger] header_notes(jack, pairs)[k], pairs[i].0)
                && holds(header_notes(jack, pairs)[k], jack),
        (forall|n: int|
            0 <= n < pairs.len() ==> header_name_ok((#[trigger] pairs[n]).0) && header_value_ok(pairs[n].1))
            ==> header_notes(jack, pairs).len() == 0,
    decreases pairs.len(),
{
    if pairs.len() > 0 {
        let front = pairs.drop_last();
        skipped_headers_are_told(jack, front, i);
        let before = header_notes(jack, front);
        let all = header_notes(jack, pairs);
        if 0 <= i < pairs.len() && !(header_name_ok(pairs[i].0) && header_value_ok(pairs[i].1)) {
            if i < front.len() {
                assert(front[i] == pairs[i]);
                let k = choose|k: int|
                    0 <= k < before.len() && holds(#[trigger] before[k], front[i].0) && holds(before[k], jack);
                assert(all[k] == before[k]);
            } else {
                let k = before.len() as int;
                let line = all[k];
                let key = pairs[i].0;
                let a = "[jack:"@.len() as int;
                assert(line.subrange(a, a + jack.len()) =~= jack);
                assert(occurs_at(line, jack, a));
                let b = if !header_name_ok(key) {
                    ("[jack:"@ + jack + "] skipping header with invalid name '"@).len() as int
                } else {
                    ("[jack:"@ + jack + "] skipping header '"@).len() as int
                };
                assert(line.subrange(b, b + key.len()) =~= key);
                assert(occurs_at(line, key, b));
                assert(holds(all[k], pairs[i].0) && holds(all[k], jack));
            }
        }
        if forall|n: int|
            0 <= n < pairs.len() ==> header_name_ok((#[trigger] pairs[n]).0) && header_value_ok(pairs[n].1) {
            assert forall|n: int| 0 <= n < front.len() implies header_name_ok((#[trigger] front[n]).0) && header_value_ok(
                front[n].1,
            ) by {
                assert(front[n] == pairs[n]);
            }
            assert(header_name_ok(pairs[pairs.len() - 1].0) && header_value_ok(pairs[pairs.len() - 1].1));
        }
    }
}

/// A line of output that is no JSON is told of, with the reason and the line; any other
/// is not.
pub proof fn stray_lines_are_told(jack: Seq<char>, text: Seq<char>, end: Seq<char>)
    requires
        text.len() > 0,
        text.last() != '\r' && text.last() != '\n',
        forall|i: int| 0 <= i < end.len() ==> (#[trigger] end[i] == '\r' || end[i] == '\n'),
        byte_len(text + end) <= 10_485_760,
    ensures
        json_read(text) is Ok ==> stray_words(jack, text + end) is None,
        json_read(text) matches Err(why) ==> (stray_words(jack, text + end) matches Some(words) && holds(words, why)
            && holds(words, text) && holds(words, jack)),
{
    lemma_bare_line(text, end);
    if let Err(why) = json_read(text) {
        let a = "[jack:"@.len() as int;
        let words = "[jack:"@ + jack + "] non-JSON stdout line ("@ + why + "): "@ + text;
        assert(words.subrange(a, a + jack.len()) =~= jack);
        assert(occurs_at(words, jack, a));
        let b = ("[jack:"@ + jack + "] non-JSON stdout line ("@).len() as int;
        assert(words.subrange(b, b + why.len()) =~= why);
        assert(occurs_at(words, why, b));
        let c = ("[jack:"@ + jack + "] non-JSON stdout line ("@ + why + "): "@).len() as int;
        assert(words.subrange(c, words.len() as int) =~= text);
        assert(occurs_at(words, text, c));
    }
}

/// On Windows a command goes through the command interpreter exactly where it has no path
/// in it and does not end in `.exe`, in whatever case that is written.
pub proof fn bare_commands_go_through_the_interpreter(command: Seq<char>, args: Seq<Seq<char>>, stem: Seq<char>, ending: Seq<char>)
    ensures
        command == stem + ending && lowered(ending) == ".exe"@ ==> spawn_model(command, args, true) == (SpawnModel {
            program: command,
            args,
        }),
        !command.contains('/') && !command.contains('\\') && !(exists|s: Seq<char>, e: Seq<char>|
            command == #[trigger] (s + e) && lowered(e) == ".exe"@) ==> spawn_model(command, args, true) == (SpawnModel {
            program: "cmd"@,
            args: seq!["/C"@, command] + args,
        }),
{
    reveal_strlit("/");
    reveal_strlit("\\");
    reveal_strlit(".exe");
    let low = lowered(command);
    let at = low.len() - 4;
    if command == stem + ending && lowered(ending) == ".exe"@ {
        assert(lowered(ending).len() == ending.len());
        assert(".exe"@.len() == 4);
        assert(low.subrange(at, at + 4) =~= lowered(ending));
        assert(occurs_at(low, ".exe"@, at));
    }
    if !command.contains('/') && !command.contains('\\') && !(exists|s: Seq<char>, e: Seq<char>|
        command == #[trigger] (s + e) && lowered(e) == ".exe"@) {
        assert forall|k: int| !occurs_at(command, "/"@, k) by {
            if occurs_at(command, "/"@, k) {
                assert(command.subrange(k, k + 1)[0] == '/');
                assert(command[k] == '/');
            }
        }
        assert forall|k: int| !occurs_at(command, "\\"@, k) by {
            if occurs_at(command, "\\"@, k) {
                assert(command.subrange(k, k + 1)[0] == '\\');
                assert(command[k] == '\\');
            }
        }
        if occurs_at(low, ".exe"@, at) {
            let s = command.subrange(0, at);
            let e = command.subrange(at, command.len() as int);
            assert(command =~= s + e);
            assert(lowered(e) =~= low.subrange(at, at + 4));
        }
    }
}

/// A failure means that the session was forgotten exactly where it is an error of the
/// request and its body says so: as an error that names the session, or in words that
/// speak of a session that is not there or not valid any more.
pub proof fn only_forgotten_sessions_are_taken_for_such(status: u16, body: Seq<char>, v: Doc)
    ensures
        400 <= status < 500 && json_read(body) == Ok::<Doc, Seq<char>>(v) && session_error(v) ==> failure(status, body) is SessionInvalid,
        failure(status, body) is SessionInvalid ==> 400 <= status < 500 && ((json_read(body) is Ok && session_error(
            json_read(body)->Ok_0,
        )) || (holds(lowered(body), "session"@) && (holds(lowered(body), "not found"@) || holds(lowered(body), "invalid"@)
            || holds(lowered(body), "expired"@) || holds(lowered(body), "initialize first"@) || holds(
            lowered(body),
            "no valid"@,
        )))),
        v.member("error"@) is None ==> !session_error(v),
{
}

/// The name of a header is made of letters, digits and a few signs, and has neither a
/// space nor a colon in it; its value has no line end in it.
pub proof fn header_bytes_are_those_of_http(b: u8, value: Seq<char>, i: int)
    ensures
        (97 <= b <= 122) || (65 <= b <= 90) || (48 <= b <= 57) || b == 45 || b == 95 ==> token_byte(b),
        b <= 32 || b == 58 || b >= 127 ==> !token_byte(b),
        header_value_ok(value) && 0 <= i < vstd::utf8::encode_utf8(value).len() ==> vstd::utf8::encode_utf8(value)[i] != 10
            && vstd::utf8::encode_utf8(value)[i] != 13 && vstd::utf8::encode_utf8(value)[i] != 0,
        (forall|k: int|
            0 <= k < vstd::utf8::encode_utf8(value).len() ==> 32 <= #[trigger] vstd::utf8::encode_utf8(value)[k] < 127)
            ==> header_value_ok(value),
{
}

} // verus!
