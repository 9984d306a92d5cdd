//! What the gateway owes its clients, said of the messages and of the state that
//! they meet.

use vstd::prelude::*;
#[allow(unused_imports)]
use vstd::string::*;

use super::builtin::builtin_docs;
use super::handlers::{
    add_refused_words, added_words, agreed_version, call_step, dispatched_state, dispatched_step, error_body,
    gateway_add_refusal, identity, initialize_step, initialized_state, listing, removed_outcome, routed_outcome,
    success_body, summary_line, text_outcome, toggled_words, tools_list_outcome, visible_tools, OutcomeModel,
    RefusalModel, StepModel,
};
use super::http::{
    error_reply, is_live, logged_client, sessionless_outcome, streamless_reply, toggle_refusal, BodyModel,
};
use super::jsonrpc::RequestModel;
use super::lifecycle::{address, bound_status, ended_status, starts_with_gateway, BindOutcome};
use super::session::SessionModel;
use super::tools::{lemma_parted_at, merged_tool};
use crate::app_state::identity::sanitized;
use crate::app_state::jacks::{AddErrorModel, RemoveErrorModel, SummaryModel, ToggleModel};
use crate::app_state::state::{bool_word, AppModel, GatewayModel};
use crate::config::grants::lemma_is_first_named;
use crate::config::laws::{jacks_run_for_somebody, switched_on, wanted_by};
use crate::config::schema::JackModel;
use crate::json::{added_member_is_found, Doc};
use crate::name_map::lemma_filter_holds;
use crate::numerals::decimal;
use crate::text::{first_at, holds, joined, occurs_at, trimmed};
use crate::upstream::manager::{all_tools, offered_tools_are_listed};

verus! {

/// Whether a client may use a jack, read off the configuration: nobody denied it,
/// and its own list, where it uses one, has the jack on; without a list in use the
/// first jack of that name has to be on.
pub open spec fn may_use(m: AppModel, client: Option<Seq<char>>, jack: Seq<char>) -> bool {
    let c = m.config;
    let denied = client is Some && exists|i: int|
        0 <= i < c.forbidden_clients.len() && #[trigger] c.forbidden_clients[i] == client->0;
    let listed = client is Some && c.client_overrides.contains_key(client->0)
        && c.client_overrides[client->0].enabled;
    &&& !denied
    &&& if listed {
        let own = c.client_overrides[client->0].jacks;
        own.contains_key(jack) && own[jack]
    } else {
        exists|i: int|
            {
                &&& 0 <= i < c.jacks.len()
                &&& (#[trigger] c.jacks[i]).name == jack
                &&& c.jacks[i].patched
                &&& forall|k: int| 0 <= k < i ==> (#[trigger] c.jacks[k]).name != jack
            }
    }
}

/// Whether a name is that of one of the gateway's own tools.
pub open spec fn is_own_tool(name: Seq<char>) -> bool {
    ||| name == "patchbay__add_jack"@
    ||| name == "patchbay__remove_jack"@
    ||| name == "patchbay__list_jacks"@
    ||| name == "patchbay__toggle_jack"@
}

/// Whether a name is that of the tool `tool` of the jack `jack`: the two are parted
/// by the first two underscores in a row.
pub open spec fn names_tool(name: Seq<char>, jack: Seq<char>, tool: Seq<char>) -> bool {
    &&& name.len() == jack.len() + 2 + tool.len()
    &&& forall|i: int| 0 <= i < jack.len() ==> name[i] == #[trigger] jack[i]
    &&& name[jack.len() as int] == '_'
    &&& name[jack.len() as int + 1] == '_'
    &&& forall|i: int| 0 <= i < tool.len() ==> name[jack.len() + 2 + i] == #[trigger] tool[i]
    &&& forall|k: int| 0 <= k < jack.len() ==> !(#[trigger] name[k] == '_' && name[k + 1] == '_')
}

/// Whether a jack of that name is configured.
pub open spec fn is_configured(m: AppModel, jack: Seq<char>) -> bool {
    exists|i: int| 0 <= i < m.config.jacks.len() && (#[trigger] m.config.jacks[i]).name == jack
}

/// What the configuration grants is what can be read off it, for every client and every
/// jack.
pub proof fn grants_are_read_off_the_configuration(m: AppModel, client: Option<Seq<char>>, jack: Seq<char>)
    ensures
        may_use(m, client, jack) <==> m.config.grants(jack, client),
        is_configured(m, jack) <==> crate::config::grants::has_jack(m.config.jacks, jack),
{
    let c = m.config;
    crate::config::grants::lemma_first_named(c.jacks, jack);
    let f = crate::config::grants::first_named(c.jacks, jack);
    if client is Some {
        assert(c.forbidden_clients.contains(client->0) <==> exists|i: int|
            0 <= i < c.forbidden_clients.len() && #[trigger] c.forbidden_clients[i] == client->0);
    }
    if c.global_patched(jack) {
        assert(c.jacks[f].name == jack && c.jacks[f].patched);
    }
    if exists|i: int|
        {
            &&& 0 <= i < c.jacks.len()
            &&& (#[trigger] c.jacks[i]).name == jack
            &&& c.jacks[i].patched
            &&& forall|k: int| 0 <= k < i ==> (#[trigger] c.jacks[k]).name != jack
        } {
        let i = choose|i: int|
            {
                &&& 0 <= i < c.jacks.len()
                &&& (#[trigger] c.jacks[i]).name == jack
                &&& c.jacks[i].patched
                &&& forall|k: int| 0 <= k < i ==> (#[trigger] c.jacks[k]).name != jack
            };
        lemma_is_first_named(c.jacks, jack, i);
    }
    if is_configured(m, jack) {
        let i = choose|i: int| 0 <= i < c.jacks.len() && (#[trigger] c.jacks[i]).name == jack;
        assert(f <= i);
    }
    if crate::config::grants::has_jack(c.jacks, jack) {
        assert(c.jacks[f].name == jack);
    }
}

proof fn lemma_names_tool(name: Seq<char>, jack: Seq<char>, tool: Seq<char>)
    requires
        names_tool(name, jack, tool),
    ensures
        super::tools::parted(name) == Some((jack, tool)),
{
    reveal_strlit("__");
    let i = jack.len() as int;
    assert(name.subrange(i, i + 2) =~= "__"@);
    assert forall|k: int| 0 <= k < i implies !occurs_at(name, "__"@, k) by {
        if occurs_at(name, "__"@, k) {
            assert(name.subrange(k, k + 2)[0] == name[k]);
            assert(name.subrange(k, k + 2)[1] == name[k + 1]);
        }
    }
    assert(first_at(name, "__"@, 0, i));
    lemma_parted_at(name, i);
    assert(name.subrange(0, i) =~= jack);
    assert(name.subrange(i + 2, name.len() as int) =~= tool) by {
        assert forall|k: int| 0 <= k < tool.len() implies name.subrange(i + 2, name.len() as int)[k] == tool[k] by {}
    }
}

proof fn lemma_parted_names(name: Seq<char>)
    ensures
        super::tools::parted(name) matches Some(p) ==> names_tool(name, p.0, p.1),
{
    reveal_strlit("__");
    if holds(name, "__"@) {
        let some = choose|k: int| occurs_at(name, "__"@, k);
        super::tools::lemma_first_exists(name, some);
        let i = choose|i: int| first_at(name, "__"@, 0, i);
        lemma_parted_at(name, i);
        let jack = name.subrange(0, i);
        let tool = name.subrange(i + 2, name.len() as int);
        assert(name.subrange(i, i + 2)[0] == '_' && name.subrange(i, i + 2)[1] == '_');
        assert forall|k: int| 0 <= k < jack.len() implies !(#[trigger] name[k] == '_' && name[k + 1] == '_') by {
            if name[k] == '_' && name[k + 1] == '_' {
                assert(name.subrange(k, k + 2) =~= "__"@);
                assert(occurs_at(name, "__"@, k));
            }
        }
        assert(names_tool(name, jack, tool));
    }
}

/// Every call that a client may make is sent on: to the client of the jack that the
/// tool's name begins with, for the tool that the rest of the name is, with the
/// arguments that came. The client's own list decides where it uses one, whatever
/// the jack's global switch says.
pub proof fn permitted_calls_are_sent_on(
    m: AppModel,
    req: RequestModel,
    client: Option<Seq<char>>,
    params: Doc,
    name: Seq<char>,
    jack: Seq<char>,
    tool: Seq<char>,
    handle: u64,
)
    requires
        req.params == Some(params),
        params.member("name"@) == Some(Doc::Text(name)),
        names_tool(name, jack, tool),
        !is_own_tool(name),
        is_configured(m, jack),
        may_use(m, client, jack),
        m.upstream.contains_key(jack),
        m.upstream[jack].status is Running,
        m.upstream[jack].client == Some(handle),
    ensures
        call_step(m, req, client) == (StepModel::Route {
            handle,
            jack,
            tool,
            arguments: match params.member("arguments"@) {
                Some(a) => a,
                None => Doc::Null,
            },
        }),
{
    grants_are_read_off_the_configuration(m, client, jack);
    lemma_names_tool(name, jack, tool);
}

/// A call is sent on in no other case: only where the client may use a jack that is
/// configured and runs, to that jack's client, and never for one of the gateway's
/// own tools.
pub proof fn only_permitted_calls_are_sent_on(m: AppModel, req: RequestModel, client: Option<Seq<char>>)
    requires
        call_step(m, req, client) is Route,
    ensures
        ({
            let step = call_step(m, req, client);
            let jack = step->jack;
            let name = req.params->0.text_member("name"@)->0;
            &&& is_configured(m, jack)
            &&& may_use(m, client, jack)
            &&& m.upstream.contains_key(jack)
            &&& m.upstream[jack].status is Running
            &&& m.upstream[jack].client == Some(step->handle)
            &&& req.params is Some
            &&& req.params->0.text_member("name"@) is Some
            &&& name == jack + "__"@ + step->tool
            &&& !holds(jack, "__"@)
            &&& !is_own_tool(name)
        }),
{
    let step = call_step(m, req, client);
    let jack = step->jack;
    grants_are_read_off_the_configuration(m, client, jack);
    reveal_strlit("__");
    let name = super::handlers::call_name(req);
    assert(holds(name, "__"@));
    let some = choose|k: int| occurs_at(name, "__"@, k);
    super::tools::lemma_first_exists(name, some);
    let i = choose|i: int| first_at(name, "__"@, 0, i);
    lemma_parted_at(name, i);
    assert(name.subrange(i, i + 2) =~= "__"@);
    assert(name =~= jack + "__"@ + step->tool);
    if holds(jack, "__"@) {
        let k = choose|k: int| occurs_at(jack, "__"@, k);
        assert(name.subrange(k, k + 2) =~= jack.subrange(k, k + 2));
        assert(occurs_at(name, "__"@, k));
    }
}

// ---- answers -------------------------------------------------------------

/// An answer repeats the id of its request and holds the result, and no error.
pub proof fn answers_carry_id_and_result(req: RequestModel, result: Doc)
    ensures
        ({
            let body = success_body(req, result);
            &&& body.member("jsonrpc"@) == Some(Doc::Text("2.0"@))
            &&& body.member("id"@) == req.id
            &&& body.member("result"@) == Some(result)
            &&& body.member("error"@) is None
        }),
{
    reveal_strlit("jsonrpc");
    reveal_strlit("id");
    reveal_strlit("result");
    reveal_strlit("error");
    lemma_keys_differ();
    let d0 = Doc::empty();
    let d1 = d0.with("jsonrpc"@, Doc::Text("2.0"@));
    let d2 = d1.maybe_with("id"@, req.id);
    let d3 = d2.with("result"@, result);
    assert forall|k: Seq<char>| d3.member(k) == (if k == "jsonrpc"@ {
        Some(Doc::Text("2.0"@))
    } else if k == "id"@ && req.id is Some {
        req.id
    } else if k == "result"@ {
        Some(result)
    } else {
        None::<Doc>
    }) by {
        added_member_is_found(d0, "jsonrpc"@, Doc::Text("2.0"@), k);
        if req.id is Some {
            added_member_is_found(d1, "id"@, req.id->0, k);
        }
        added_member_is_found(d2, "result"@, result, k);
    }
    assert(success_body(req, result) == d3);
}

/// An error repeats the id of its request and holds the code and the words, and no
/// result.
pub proof fn errors_carry_id_and_code(id: Option<Doc>, code: i64, message: Seq<char>)
    ensures
        ({
            let body = error_body(id, code, message);
            &&& body.member("jsonrpc"@) == Some(Doc::Text("2.0"@))
            &&& body.member("id"@) == id
            &&& body.member("result"@) is None
            &&& body.member("error"@) is Some
            &&& body.member("error"@)->0.member("code"@) == Some(Doc::Whole(code as int))
            &&& body.member("error"@)->0.member("message"@) == Some(Doc::Text(message))
        }),
{
    lemma_keys_differ();
    let e0 = Doc::empty();
    let e1 = e0.with("code"@, Doc::Whole(code as int));
    let e = e1.with("message"@, Doc::Text(message));
    added_member_is_found(e0, "code"@, Doc::Whole(code as int), "code"@);
    added_member_is_found(e0, "code"@, Doc::Whole(code as int), "message"@);
    added_member_is_found(e1, "message"@, Doc::Text(message), "code"@);
    added_member_is_found(e1, "message"@, Doc::Text(message), "message"@);
    let d0 = Doc::empty();
    let d1 = d0.with("jsonrpc"@, Doc::Text("2.0"@));
    let d2 = d1.maybe_with("id"@, id);
    let d3 = d2.with("error"@, e);
    assert forall|k: Seq<char>| d3.member(k) == (if k == "jsonrpc"@ {
        Some(Doc::Text("2.0"@))
    } else if k == "id"@ && id is Some {
        id
    } else if k == "error"@ {
        Some(e)
    } else {
        None::<Doc>
    }) by {
        added_member_is_found(d0, "jsonrpc"@, Doc::Text("2.0"@), k);
        if id is Some {
            added_member_is_found(d1, "id"@, id->0, k);
        }
        added_member_is_found(d2, "error"@, e, k);
    }
    assert(error_body(id, code, message) == d3);
}

proof fn lemma_keys_differ()
    ensures
        "jsonrpc"@.len() == 7,
        "id"@.len() == 2,
        "result"@.len() == 6,
        "error"@.len() == 5,
        "code"@.len() == 4,
        "message"@.len() == 7,
        "content"@.len() == 7,
        "isError"@.len() == 7,
        "type"@.len() == 4,
        "text"@.len() == 4,
        "tools"@.len() == 5,
        "content"@ != "isError"@,
        "type"@ != "text"@,
        "jsonrpc"@ != "message"@,
{
    reveal_strlit("jsonrpc");
    reveal_strlit("id");
    reveal_strlit("result");
    reveal_strlit("error");
    reveal_strlit("code");
    reveal_strlit("message");
    reveal_strlit("content");
    reveal_strlit("isError");
    reveal_strlit("type");
    reveal_strlit("text");
    reveal_strlit("tools");
    assert("content"@[0] == 'c');
    assert("isError"@[0] == 'i');
    assert("type"@[1] == 'y');
    assert("text"@[1] == 'e');
    assert("jsonrpc"@[0] == 'j');
    assert("message"@[0] == 'm');
}

/// A tool call that is answered with words is a success on the wire, whose result is
/// one text and says whether it is an error.
pub proof fn words_reach_the_model(req: RequestModel, text: Seq<char>, is_error: bool)
    ensures
        ({
            let o = text_outcome(req, text, is_error);
            let result = o.body->0.member("result"@)->0;
            let item = result.member("content"@)->0->Array_0[0];
            &&& o.http_status == 200
            &&& o.new_session_id is None
            &&& o.body is Some
            &&& o.body->0.member("id"@) == req.id
            &&& o.body->0.member("error"@) is None
            &&& result.member("isError"@) == Some(Doc::Bool(is_error))
            &&& result.member("content"@) matches Some(Doc::Array(items)) && items.len() == 1
            &&& item.member("type"@) == Some(Doc::Text("text"@))
            &&& item.member("text"@) == Some(Doc::Text(text))
        }),
{
    lemma_keys_differ();
    let i0 = Doc::empty();
    let i1 = i0.with("type"@, Doc::Text("text"@));
    let item = i1.with("text"@, Doc::Text(text));
    added_member_is_found(i0, "type"@, Doc::Text("text"@), "type"@);
    added_member_is_found(i0, "type"@, Doc::Text("text"@), "text"@);
    added_member_is_found(i1, "text"@, Doc::Text(text), "type"@);
    added_member_is_found(i1, "text"@, Doc::Text(text), "text"@);
    let r0 = Doc::empty();
    let r1 = r0.with("content"@, Doc::Array(seq![item]));
    let result = r1.with("isError"@, Doc::Bool(is_error));
    added_member_is_found(r0, "content"@, Doc::Array(seq![item]), "content"@);
    added_member_is_found(r0, "content"@, Doc::Array(seq![item]), "isError"@);
    added_member_is_found(r1, "isError"@, Doc::Bool(is_error), "content"@);
    added_member_is_found(r1, "isError"@, Doc::Bool(is_error), "isError"@);
    answers_carry_id_and_result(req, result);
}

// ---- calls that are not sent on ------------------------------------------

/// A call of a jack that the client may not use is answered with words that say
/// which jack it is, as an error that the model reads; it is not sent on.
pub proof fn switched_off_calls_are_answered(
    m: AppModel,
    req: RequestModel,
    client: Option<Seq<char>>,
    params: Doc,
    name: Seq<char>,
    jack: Seq<char>,
    tool: Seq<char>,
)
    requires
        req.params == Some(params),
        params.member("name"@) == Some(Doc::Text(name)),
        names_tool(name, jack, tool),
        !is_own_tool(name),
        is_configured(m, jack),
        !may_use(m, client, jack),
        client is Some ==> !m.config.forbidden_clients.contains(client->0),
    ensures
        exists|words: Seq<char>|
            {
                &&& call_step(m, req, client) == StepModel::Reply(#[trigger] text_outcome(req, words, true))
                &&& holds(words, jack)
                &&& (client is Some && m.config.client_overrides.contains_key(client->0)
                    && m.config.client_overrides[client->0].enabled
                    && m.config.client_overrides[client->0].jacks.contains_key(jack)) ==> holds(words, client->0)
            },
{
    grants_are_read_off_the_configuration(m, client, jack);
    lemma_names_tool(name, jack, tool);
    let own = super::handlers::own_list_blocks(m.config, jack, client);
    let words = super::handlers::unpatched_words(jack, client, own);
    lemma_unpatched_words(jack, client, own);
    assert(call_step(m, req, client) == StepModel::Reply(text_outcome(req, words, true)));
}

proof fn lemma_holds_middle(a: Seq<char>, b: Seq<char>, c: Seq<char>)
    ensures
        holds(a + b + c, b),
        holds(a + b, b),
{
    let i = a.len() as int;
    assert((a + b + c).subrange(i, i + b.len()) =~= b);
    assert(occurs_at(a + b + c, b, i));
    assert((a + b).subrange(i, i + b.len()) =~= b);
    assert(occurs_at(a + b, b, i));
}

proof fn lemma_unpatched_words(jack: Seq<char>, client: Option<Seq<char>>, own: bool)
    ensures
        holds(super::handlers::unpatched_words(jack, client, own), jack),
        own && client is Some ==> holds(super::handlers::unpatched_words(jack, client, own), client->0),
{
    let words = super::handlers::unpatched_words(jack, client, own);
    let head = "Patchbay: server '"@;
    let n = (head + jack).len() as int;
    assert(words =~= head + jack + words.subrange(n, words.len() as int));
    lemma_holds_middle(head, jack, words.subrange(n, words.len() as int));
    if own && client is Some {
        let front = head + jack + "' is disabled for THIS agent ('"@;
        let k = (front + client->0).len() as int;
        assert(words =~= front + client->0 + words.subrange(k, words.len() as int));
        lemma_holds_middle(front, client->0, words.subrange(k, words.len() as int));
    }
}

/// A call of a jack that the client may use and that does not run is answered with
/// words that say which jack it is and, where its start failed, why.
pub proof fn calls_of_idle_jacks_are_answered(
    m: AppModel,
    req: RequestModel,
    client: Option<Seq<char>>,
    params: Doc,
    name: Seq<char>,
    jack: Seq<char>,
    tool: Seq<char>,
)
    requires
        req.params == Some(params),
        params.member("name"@) == Some(Doc::Text(name)),
        names_tool(name, jack, tool),
        !is_own_tool(name),
        is_configured(m, jack),
        may_use(m, client, jack),
        !(m.upstream.contains_key(jack) && m.upstream[jack].status is Running),
    ensures
        exists|words: Seq<char>|
            {
                &&& call_step(m, req, client) == StepModel::Reply(#[trigger] text_outcome(req, words, true))
                &&& holds(words, jack)
                &&& (m.upstream.contains_key(jack) && m.upstream[jack].status is Failed) ==> holds(
                    words,
                    trimmed(m.upstream[jack].status->Failed_0),
                )
            },
{
    grants_are_read_off_the_configuration(m, client, jack);
    lemma_names_tool(name, jack, tool);
    let status = crate::upstream::manager::status_text(m.upstream, jack);
    let words = super::handlers::not_running_words(jack, status);
    let head = "Patchbay: server '"@;
    let middle = "' is patched but not running (last error: "@;
    let why = super::handlers::reason_words(status);
    let tail = "). Toggling it off and on in the tray restarts it."@;
    assert(words =~= head + jack + (middle + why + tail));
    lemma_holds_middle(head, jack, middle + why + tail);
    assert(words =~= (head + jack + middle) + why + tail);
    lemma_holds_middle(head + jack + middle, why, tail);
    if m.upstream.contains_key(jack) && m.upstream[jack].status is Failed {
        let reason = m.upstream[jack].status->Failed_0;
        reveal_strlit("failed: ");
        reveal_strlit("failed:");
        reveal_strlit("starting");
        assert("failed: "@ =~= "failed:"@.push(' '));
        assert(status.subrange(0, 7) =~= "failed:"@);
        assert(status[0] == 'f');
        assert("starting"@[0] == 's');
        assert(status.subrange(7, status.len() as int) =~= seq![' '] + reason);
        crate::text::leading_space_does_not_count(reason);
    }
    assert(call_step(m, req, client) == StepModel::Reply(text_outcome(req, words, true)));
}

/// A name that is no tool's is an error of the call's parameters that repeats the
/// name: one without two underscores in a row, or one that begins with the name of
/// no jack.
pub proof fn unknown_tools_are_errors(m: AppModel, req: RequestModel, client: Option<Seq<char>>, params: Doc, name: Seq<char>)
    requires
        req.params == Some(params),
        params.member("name"@) == Some(Doc::Text(name)),
        !is_own_tool(name),
        client is Some ==> !m.config.forbidden_clients.contains(client->0),
        forall|jack: Seq<char>, tool: Seq<char>| #[trigger]
            names_tool(name, jack, tool) ==> !is_configured(m, jack),
    ensures
        exists|words: Seq<char>|
            {
                &&& call_step(m, req, client) == StepModel::Reply(
                    OutcomeModel {
                        http_status: 200,
                        new_session_id: None,
                        body: Some(#[trigger] error_body(req.id, -32602i64, words)),
                    },
                )
                &&& holds(words, name)
            },
{
    let words = "unknown tool '"@ + name + "'"@;
    lemma_holds_middle("unknown tool '"@, name, "'"@);
    if let Some((jack, tool)) = super::tools::parted(name) {
        lemma_parted_names(name);
        grants_are_read_off_the_configuration(m, client, jack);
    }
    assert(call_step(m, req, client) == StepModel::Reply(
        OutcomeModel { http_status: 200, new_session_id: None, body: Some(error_body(req.id, -32602i64, words)) },
    ));
}

/// Whatever a denied client calls, it is told by name that it is blocked; nothing is
/// sent on, and none of the gateway's own tools does anything for it.
pub proof fn denied_calls_are_answered(m: AppModel, req: RequestModel, client: Seq<char>, i: int)
    requires
        0 <= i < m.config.forbidden_clients.len(),
        m.config.forbidden_clients[i] == client,
    ensures
        exists|words: Seq<char>|
            {
                &&& call_step(m, req, Some(client)) == StepModel::Reply(#[trigger] text_outcome(req, words, true))
                &&& holds(words, client)
            },
        visible_tools(m, Some(client)).len() == 0,
{
    assert(m.config.forbidden_clients.contains(client));
    let words = super::handlers::forbidden_words(Some(client));
    let head = "Patchbay: this agent ('"@;
    let n = (head + client).len() as int;
    assert(words =~= head + client + words.subrange(n, words.len() as int));
    lemma_holds_middle(head, client, words.subrange(n, words.len() as int));
    assert(call_step(m, req, Some(client)) == StepModel::Reply(text_outcome(req, words, true)));
    super::handlers::denied_client_sees_no_tools(m, client);
}

proof fn lemma_own_tools_differ()
    ensures
        "patchbay__add_jack"@.len() == 18,
        "patchbay__remove_jack"@.len() == 21,
        "patchbay__list_jacks"@.len() == 20,
        "patchbay__toggle_jack"@.len() == 21,
        "patchbay__remove_jack"@ != "patchbay__toggle_jack"@,
{
    reveal_strlit("patchbay__add_jack");
    reveal_strlit("patchbay__remove_jack");
    reveal_strlit("patchbay__list_jacks");
    reveal_strlit("patchbay__toggle_jack");
    assert("patchbay__remove_jack"@[10] == 'r');
    assert("patchbay__toggle_jack"@[10] == 't');
}

/// The gateway's own tools, called by a client that nobody denied. Adding hands the
/// arguments on. Removing hands the name on. Switching off goes through for a jack
/// that is configured; switching on never does, and its answer names the jack.
/// Listing changes nothing.
pub proof fn own_tools_do_what_they_say(m: AppModel, req: RequestModel, client: Option<Seq<char>>, params: Doc, args: Doc, jack: Seq<char>)
    requires
        req.params == Some(params),
        params.member("arguments"@) == Some(args),
        args.member("name"@) == Some(Doc::Text(jack)),
        client is Some ==> !m.config.forbidden_clients.contains(client->0),
    ensures
        params.member("name"@) == Some(Doc::Text("patchbay__add_jack"@)) ==> call_step(m, req, client) == (
        StepModel::AddJack { arguments: args }),
        params.member("name"@) == Some(Doc::Text("patchbay__remove_jack"@)) ==> call_step(m, req, client) == (
        StepModel::RemoveJack { name: jack }),
        params.member("name"@) == Some(Doc::Text("patchbay__list_jacks"@)) ==> call_step(m, req, client) is Reply,
        params.member("name"@) == Some(Doc::Text("patchbay__toggle_jack"@)) && args.member("patched"@) == Some(
            Doc::Bool(false),
        ) && is_configured(m, jack) ==> call_step(m, req, client) == (StepModel::SwitchOff { name: jack }),
        params.member("name"@) == Some(Doc::Text("patchbay__toggle_jack"@)) && (args.member("patched"@) != Some(
            Doc::Bool(false),
        ) || !is_configured(m, jack)) ==> call_step(m, req, client) is Reply,
        params.member("name"@) == Some(Doc::Text("patchbay__toggle_jack"@)) && args.member("patched"@) == Some(
            Doc::Bool(true),
        ) ==> exists|words: Seq<char>|
            {
                &&& call_step(m, req, client) == StepModel::Reply(#[trigger] text_outcome(req, words, true))
                &&& holds(words, jack)
            },
{
    lemma_own_tools_differ();
    grants_are_read_off_the_configuration(m, client, jack);
    if params.member("name"@) == Some(Doc::Text("patchbay__toggle_jack"@)) && args.member("patched"@) == Some(
        Doc::Bool(true),
    ) {
        let words = if is_configured(m, jack) {
            super::policy::enable_refusal(jack)
        } else {
            "Patchbay: jack '"@ + jack + "' not found."@
        };
        lemma_holds_middle("Patchbay: jack '"@, jack, "' not found."@);
        let head = "Patchbay: agents may switch a server OFF but not ON, so '"@;
        let full = super::policy::enable_refusal(jack);
        let n = (head + jack).len() as int;
        assert(full =~= head + jack + full.subrange(n, full.len() as int));
        lemma_holds_middle(head, jack, full.subrange(n, full.len() as int));
        assert(call_step(m, req, client) == StepModel::Reply(text_outcome(req, words, true)));
    }
}

// ---- the tools that a client sees ----------------------------------------

/// Whether a runtime has a tool on offer.
pub open spec fn on_offer(m: AppModel, jack: Seq<char>, t: Doc) -> bool {
    &&& m.upstream.contains_key(jack)
    &&& m.upstream[jack].status is Running
    &&& crate::config::validate::valid_jack_name(jack)
    &&& exists|k: int| 0 <= k < m.upstream[jack].tool_cache.len() && #[trigger] m.upstream[jack].tool_cache[k] == t
}

/// A client sees every tool of every jack that it may use and that runs, and those
/// of no other jack: a client with its own list sees exactly the jacks that the list
/// has on. What else it sees are the gateway's own tools.
pub proof fn clients_see_what_they_may_use(m: AppModel, client: Option<Seq<char>>)
    requires
        m.upstream.dom().finite(),
    ensures
        forall|jack: Seq<char>, t: Doc| #[trigger]
            on_offer(m, jack, t) && is_configured(m, jack) && may_use(m, client, jack) ==> visible_tools(
                m,
                client,
            ).contains(merged_tool(jack, t)),
        forall|n: int|
            0 <= n < visible_tools(m, client).len() ==> {
                ||| builtin_docs().contains(#[trigger] visible_tools(m, client)[n])
                ||| exists|jack: Seq<char>, t: Doc|
                    {
                        &&& #[trigger] on_offer(m, jack, t)
                        &&& is_configured(m, jack)
                        &&& may_use(m, client, jack)
                        &&& visible_tools(m, client)[n] == merged_tool(jack, t)
                    }
            },
{
    let all = all_tools(m.upstream);
    let pred = |t: (Seq<char>, Doc)| super::handlers::sees(m.config, t.0, client);
    let merge = |t: (Seq<char>, Doc)| merged_tool(t.0, t.1);
    let kept = all.filter(pred);
    let shown = visible_tools(m, client);
    assert forall|jack: Seq<char>, t: Doc| #[trigger]
        on_offer(m, jack, t) && is_configured(m, jack) && may_use(m, client, jack) implies shown.contains(
        merged_tool(jack, t),
    ) by {
        grants_are_read_off_the_configuration(m, client, jack);
        offered_tools_are_listed(m.upstream, jack, t);
        lemma_filter_holds(all, pred, (jack, t));
        let i = choose|i: int| 0 <= i < kept.len() && kept[i] == (jack, t);
        assert(kept.map_values(merge)[i] == merged_tool(jack, t));
        assert(shown[i] == merged_tool(jack, t));
    }
    assert forall|n: int| 0 <= n < shown.len() implies {
        ||| builtin_docs().contains(#[trigger] shown[n])
        ||| exists|jack: Seq<char>, t: Doc|
            {
                &&& #[trigger] on_offer(m, jack, t)
                &&& is_configured(m, jack)
                &&& may_use(m, client, jack)
                &&& shown[n] == merged_tool(jack, t)
            }
    } by {
        if n < kept.len() {
            let (jack, t) = kept[n];
            assert(kept.contains(kept[n]));
            lemma_filter_holds(all, pred, (jack, t));
            grants_are_read_off_the_configuration(m, client, jack);
            offered_tools_are_listed(m.upstream, jack, t);
            assert(on_offer(m, jack, t));
        } else {
            assert(shown[n] == builtin_docs()[n - kept.len()]);
        }
    }
}

/// Whoever is not denied is shown the gateway's own four tools, last, whatever else
/// there is; `tools/list` answers with the tools that the client sees.
pub proof fn own_tools_are_listed(m: AppModel, req: RequestModel, client: Option<Seq<char>>)
    ensures
        (client is Some ==> !m.config.forbidden_clients.contains(client->0)) ==> {
            let shown = visible_tools(m, client);
            &&& shown.len() >= 4
            &&& shown[shown.len() - 4].member("name"@) == Some(Doc::Text("patchbay__add_jack"@))
            &&& shown[shown.len() - 3].member("name"@) == Some(Doc::Text("patchbay__remove_jack"@))
            &&& shown[shown.len() - 2].member("name"@) == Some(Doc::Text("patchbay__list_jacks"@))
            &&& shown[shown.len() - 1].member("name"@) == Some(Doc::Text("patchbay__toggle_jack"@))
        },
        tools_list_outcome(m, req, client).http_status == 200,
        tools_list_outcome(m, req, client).new_session_id is None,
        tools_list_outcome(m, req, client).body is Some,
        tools_list_outcome(m, req, client).body->0.member("id"@) == req.id,
        tools_list_outcome(m, req, client).body->0.member("result"@) is Some,
        tools_list_outcome(m, req, client).body->0.member("result"@)->0.member("tools"@) == Some(
            Doc::Array(visible_tools(m, client)),
        ),
{
    let result = Doc::empty().with("tools"@, Doc::Array(visible_tools(m, client)));
    added_member_is_found(Doc::empty(), "tools"@, Doc::Array(visible_tools(m, client)), "tools"@);
    answers_carry_id_and_result(req, result);
    super::builtin::own_tools_have_their_names();
}

// ---- one message ---------------------------------------------------------

/// The methods that the gateway knows are told apart.
pub proof fn methods_differ()
    ensures
        "tools/list"@ != "tools/call"@,
        "initialize"@ != "tools/list"@,
        "initialize"@ != "tools/call"@,
        "notifications/initialized"@ != "tools/list"@,
        "notifications/initialized"@ != "tools/call"@,
{
    lemma_methods_differ();
}

proof fn lemma_methods_differ()
    ensures
        "initialize"@.len() == 10,
        "notifications/initialized"@.len() == 25,
        "tools/list"@.len() == 10,
        "tools/call"@.len() == 10,
        "ping"@.len() == 4,
        "tools/list"@ != "tools/call"@,
        "initialize"@ != "tools/list"@,
        "initialize"@ != "tools/call"@,
{
    reveal_strlit("initialize");
    reveal_strlit("notifications/initialized");
    reveal_strlit("tools/list");
    reveal_strlit("tools/call");
    reveal_strlit("ping");
    assert("tools/list"@[6] == 'l');
    assert("tools/call"@[6] == 'c');
    assert("initialize"@[0] == 'i');
    assert("tools/list"@[0] == 't');
    assert("tools/call"@[0] == 't');
}

/// Every message is judged by the client of its session: what it lists and what it
/// calls are that client's. `ping` is answered, the notice that a client is ready is
/// accepted without an answer, and so is any other notification; a request with a
/// method that nobody knows is an error that names the method.
pub proof fn messages_are_judged_by_their_session(m: AppModel, req: RequestModel, id: Seq<char>)
    requires
        m.sessions.contains_key(id),
    ensures
        ({
            let step = dispatched_step(m, req, Some(id));
            let client = m.sessions[id].client_name;
            &&& req.method == "tools/call"@ ==> step == call_step(m, req, client)
            &&& req.method == "tools/list"@ ==> step == StepModel::Reply(tools_list_outcome(m, req, client))
            &&& req.method == "ping"@ ==> (step matches StepModel::Reply(o) && o.http_status == 200 && o.body is Some
                && o.body->0.member("id"@) == req.id && o.body->0.member("result"@) == Some(Doc::empty()))
            &&& req.method == "notifications/initialized"@ ==> (step matches StepModel::Reply(o) && o.http_status == 202
                && o.body is None)
            &&& req.method != "tools/call"@ && req.method != "tools/list"@ && req.method != "ping"@ && req.method
                != "notifications/initialized"@ ==> {
                &&& req.id is None ==> (step matches StepModel::Reply(o) && o.http_status == 202 && o.body is None)
                &&& req.id is Some ==> (step matches StepModel::Reply(o) && o.http_status == 200 && o.body is Some
                    && o.body->0.member("id"@) == req.id && o.body->0.member("error"@) is Some && o.body->0.member(
                    "error"@,
                )->0.member("code"@) == Some(Doc::Whole(-32601)) && (o.body->0.member("error"@)->0.member("message"@)
                    matches Some(Doc::Text(words)) && holds(words, req.method)))
            }
        }),
{
    lemma_methods_differ();
    answers_carry_id_and_result(req, Doc::empty());
    errors_carry_id_and_code(req.id, -32601i64, "method not found: "@ + req.method);
    lemma_holds_middle("method not found: "@, req.method, Seq::empty());
}

/// A message keeps its own session alive, and marks it as ready where it says so. It
/// touches no other session and nothing else of the state.
pub proof fn messages_touch_their_session(m: AppModel, req: RequestModel, session: Option<Seq<char>>, now: u64, other: Seq<char>)
    ensures
        ({
            let after = dispatched_state(m, req, session, now);
            &&& after == (AppModel { sessions: after.sessions, ..m })
            &&& session != Some(other) ==> after.sessions.contains_key(other) == m.sessions.contains_key(other)
            &&& session != Some(other) && m.sessions.contains_key(other) ==> after.sessions[other] == m.sessions[other]
            &&& session == Some(other) && m.sessions.contains_key(other) ==> {
                let s = after.sessions[other];
                &&& after.sessions.contains_key(other)
                &&& s == (SessionModel { last_seen: now, initialized: s.initialized, ..m.sessions[other] })
                &&& req.method == "notifications/initialized"@ ==> s.initialized
                &&& req.method != "notifications/initialized"@ ==> s.initialized == m.sessions[other].initialized
            }
            &&& session == Some(other) && !m.sessions.contains_key(other) ==> after == m
            &&& session is None ==> after == m
        }),
{
}

/// Without a live session nothing is done. A tool call is answered by words that the
/// model reads as an error, and a listing by one tool that stands for them. Any other
/// request fails: a session that is gone is not found, and one that is not named is a
/// bad request.
pub proof fn requests_without_a_session_are_told(req: RequestModel, named: bool)
    ensures
        ({
            let o = sessionless_outcome(req, named);
            &&& o.new_session_id is None
            &&& o.body is Some
            &&& req.method == "tools/call"@ ==> {
                &&& o.http_status == 200
                &&& o.body->0.member("id"@) == req.id
                &&& exists|words: Seq<char>| words.len() > 0 && o == #[trigger] text_outcome(req, words, true)
            }
            &&& req.method == "tools/list"@ ==> {
                &&& o.http_status == 200
                &&& o.body->0.member("id"@) == req.id
                &&& o.body->0.member("result"@) is Some
                &&& o.body->0.member("result"@)->0.member("tools"@) matches Some(Doc::Array(tools)) && tools.len() == 1
            }
            &&& req.method != "tools/call"@ && req.method != "tools/list"@ ==> {
                &&& named ==> o.http_status == 404
                &&& !named ==> o.http_status == 400
                &&& o.body->0.member("result"@) is None
                &&& o.body->0.member("error"@) is Some
                &&& o.body->0.member("error"@)->0.member("code"@) == Some(Doc::Whole(-32600))
            }
        }),
{
    lemma_methods_differ();
    lemma_keys_differ();
    let words = super::http::dead_call_words(!named);
    reveal_strlit("You have not established an MCP session with Patchbay yet. Call 'initialize' first, then retry this tool call. If this is your very first connection to Patchbay, the user may need to approve access via a dialog on their screen before tools become available — after initializing, wait a few seconds for that approval, then retry.");
    reveal_strlit("Your MCP session with Patchbay is no longer valid (it expired, or Patchbay restarted). This is not a tool failure. Call 'initialize' again to start a fresh session, then retry this tool call. If this is your very first connection to Patchbay, the user may need to approve access via a dialog on their screen before tools become available — after reinitializing, wait a few seconds for that approval, then retry.");
    assert(words.len() > 0);
    words_reach_the_model(req, words, true);
    let list = super::http::dead_list_doc(!named);
    let tools = list->Object_0[0].value;
    added_member_is_found(Doc::empty(), "tools"@, tools, "tools"@);
    answers_carry_id_and_result(req, list);
    errors_carry_id_and_code(None, -32600i64, super::http::session_gone_words());
    errors_carry_id_and_code(None, -32600i64, "missing Mcp-Session-Id header"@);
    if req.method == "tools/call"@ {
        assert(sessionless_outcome(req, named) == text_outcome(req, words, true));
    }
}

// ---- initialize ----------------------------------------------------------

/// Who a client is: the header's word goes before the client's own, a header that is
/// blank does not count, and a client that says nothing is nobody. Either way the name
/// is made safe.
pub proof fn the_header_names_the_client(header: Option<Seq<char>>, params: Option<Doc>, name: Seq<char>)
    ensures
        header is Some && trimmed(header->0).len() > 0 ==> identity(header, params) == Some(
            sanitized(trimmed(header->0)),
        ),
        (header is None || trimmed(header->0).len() == 0) && params is Some && params->0.member("clientInfo"@) is Some
            && params->0.member("clientInfo"@)->0.member("name"@) == Some(Doc::Text(name)) ==> identity(header, params)
            == Some(sanitized(name)),
        (header is None || trimmed(header->0).len() == 0) && (params is None || params->0.member("clientInfo"@) is None)
            ==> identity(header, params) is None,
{
}

/// A client gets the protocol version that it asks for where the gateway speaks it, and
/// else the preferred one.
pub proof fn versions_are_agreed_on(params: Doc, version: Seq<char>)
    requires
        params.member("protocolVersion"@) == Some(Doc::Text(version)),
    ensures
        version == "2025-03-26"@ || version == "2025-06-18"@ ==> agreed_version(Some(params)) == version,
        agreed_version(Some(params)) == "2025-03-26"@ || agreed_version(Some(params)) == "2025-06-18"@,
        version != "2025-03-26"@ ==> agreed_version(Some(params)) == "2025-06-18"@,
        agreed_version(None) == "2025-06-18"@,
{
}

/// A client that is let in gets a session of its own, under the id that it is told,
/// with its name and the version that was agreed on; the answer says that tool lists
/// may change. A client that says nothing of who it is, is turned away with an error
/// where new clients need approval, and gets no session. No other session is touched,
/// and nothing is granted.
pub proof fn initialize_makes_a_session(
    m: AppModel,
    req: RequestModel,
    header: Option<Seq<char>>,
    id: Seq<char>,
    now: u64,
    other: Seq<char>,
)
    ensures
        ({
            let after = initialized_state(m, req, header, id, now);
            let step = initialize_step(m, req, header, id);
            let refused = identity(header, req.params) is None && m.config.require_approval_for_new_clients;
            &&& after.config == m.config
            &&& after.upstream == m.upstream
            &&& other != id ==> after.sessions.contains_key(other) == m.sessions.contains_key(other)
            &&& other != id && m.sessions.contains_key(other) ==> after.sessions[other] == m.sessions[other]
            &&& refused ==> after == m
            &&& refused ==> (step matches StepModel::Reply(o) && o.new_session_id is None && o.body is Some
                && o.body->0.member("id"@) == req.id && o.body->0.member("error"@) is Some && o.body->0.member(
                "error"@,
            )->0.member("code"@) == Some(Doc::Whole(-32000)))
            &&& !refused ==> {
                let s = after.sessions[id];
                let result = step->outcome.body->0.member("result"@)->0;
                &&& after.sessions.contains_key(id)
                &&& s.id == id
                &&& s.client_name == identity(header, req.params)
                &&& s.protocol_version == agreed_version(req.params)
                &&& !s.initialized
                &&& s.notification_stream is None
                &&& s.last_seen == now
                &&& step is Admit
                &&& step->client == identity(header, req.params)
                &&& req.params is Some && req.params->0.member("clientInfo"@) is Some && req.params->0.member(
                    "clientInfo"@,
                )->0.text_member("name"@) is Some ==> step->version == req.params->0.member("clientInfo"@)->0.text_member(
                    "version"@,
                )
                &&& step->outcome.http_status == 200
                &&& step->outcome.new_session_id == Some(id)
                &&& step->outcome.body is Some
                &&& step->outcome.body->0.member("id"@) == req.id
                &&& step->outcome.body->0.member("result"@) is Some
                &&& result.member("protocolVersion"@) == Some(Doc::Text(agreed_version(req.params)))
                &&& result.member("capabilities"@) is Some
                &&& result.member("capabilities"@)->0.member("tools"@) is Some
                &&& result.member("capabilities"@)->0.member("tools"@)->0.member("listChanged"@) == Some(
                    Doc::Bool(true),
                )
            }
        }),
{
    let version = agreed_version(req.params);
    let result = super::handlers::initialize_result(version);
    answers_carry_id_and_result(req, result);
    errors_carry_id_and_code(req.id, -32000i64, super::handlers::unidentified_words());
    reveal_strlit("protocolVersion");
    reveal_strlit("capabilities");
    reveal_strlit("serverInfo");
    reveal_strlit("instructions");
    assert("protocolVersion"@.len() == 15 && "capabilities"@.len() == 12 && "serverInfo"@.len() == 10
        && "instructions"@.len() == 12);
    assert("capabilities"@[0] == 'c');
    assert("instructions"@[0] == 'i');
    let t1 = Doc::empty().with("listChanged"@, Doc::Bool(true));
    added_member_is_found(Doc::empty(), "listChanged"@, Doc::Bool(true), "listChanged"@);
    let caps = Doc::empty().with("tools"@, t1);
    added_member_is_found(Doc::empty(), "tools"@, t1, "tools"@);
    let d0 = Doc::empty();
    let d1 = d0.with("protocolVersion"@, Doc::Text(version));
    let d2 = d1.with("capabilities"@, caps);
    let info = result->Object_0[2].value;
    let words = result->Object_0[3].value;
    let d3 = d2.with("serverInfo"@, info);
    assert(result == d3.with("instructions"@, words));
    added_member_is_found(d0, "protocolVersion"@, Doc::Text(version), "protocolVersion"@);
    added_member_is_found(d1, "capabilities"@, caps, "protocolVersion"@);
    added_member_is_found(d2, "serverInfo"@, info, "protocolVersion"@);
    added_member_is_found(d3, "instructions"@, words, "protocolVersion"@);
    added_member_is_found(d0, "protocolVersion"@, Doc::Text(version), "capabilities"@);
    added_member_is_found(d1, "capabilities"@, caps, "capabilities"@);
    added_member_is_found(d2, "serverInfo"@, info, "capabilities"@);
    added_member_is_found(d3, "instructions"@, words, "capabilities"@);
}

// ---- changes over HTTP ---------------------------------------------------

/// Over HTTP a jack can be switched off and never on: switching off goes through for
/// every jack that is configured, switching on is forbidden, and a jack that is not
/// configured is not found.
pub proof fn http_switches_off_only(m: AppModel, name: Seq<char>)
    ensures
        is_configured(m, name) ==> toggle_refusal(m, name, false) is None,
        is_configured(m, name) ==> (toggle_refusal(m, name, true) matches Some(r) && r.status == 403),
        !is_configured(m, name) ==> (toggle_refusal(m, name, true) matches Some(r) && r.status == 404),
        !is_configured(m, name) ==> (toggle_refusal(m, name, false) matches Some(r) && r.status == 404),
{
    grants_are_read_off_the_configuration(m, None, name);
}

/// A jack that a caller describes is taken only where nothing is wrong with it and it
/// is described as switched off.
pub proof fn only_switched_off_jacks_are_taken(m: AppModel, jack: JackModel)
    ensures
        gateway_add_refusal(m.config, jack) is None <==> !jack.patched && crate::app_state::jacks::add_error(
            m.config,
            jack,
        ) is None,
{
}

// ---- the listener --------------------------------------------------------

/// The gateway listens on this machine only, on the port it is told.
pub proof fn the_gateway_listens_locally(port: u16)
    ensures
        occurs_at(address(port), "127.0.0.1:"@, 0),
        crate::numerals::digits_value(address(port).subrange("127.0.0.1:"@.len() as int, address(port).len() as int))
            == port,
{
    crate::numerals::decimal_reads_back(port as nat, u64::MAX as nat);
    assert(address(port).subrange(0, "127.0.0.1:"@.len() as int) =~= "127.0.0.1:"@);
    assert(address(port).subrange("127.0.0.1:"@.len() as int, address(port).len() as int) =~= decimal(port as nat));
}

/// The status says what came of the listener: it runs on the port that it was bound to,
/// or it failed, for a reason that holds what the system said. When it ends, only the
/// status of that very listener changes.
pub proof fn the_status_follows_the_listener(port: u16, why: String, status: GatewayModel)
    ensures
        bound_status(port, BindOutcome::Bound) == (GatewayModel::Running { port }),
        bound_status(port, BindOutcome::Failed(why)) matches GatewayModel::Failed { reason } && holds(reason, why@),
        bound_status(port, BindOutcome::InvalidAddress(why)) matches GatewayModel::Failed { reason } && holds(
            reason,
            why@,
        ),
        ended_status(GatewayModel::Running { port }, port, None) is Stopped,
        ended_status(GatewayModel::Running { port }, port, Some(why@)) matches GatewayModel::Failed { reason } && holds(
            reason,
            why@,
        ),
        status != (GatewayModel::Running { port }) ==> ended_status(status, port, Some(why@)) == status && ended_status(
            status,
            port,
            None,
        ) == status,
{
    lemma_holds_middle("bind "@ + address(port) + ": "@, why@, Seq::empty());
    lemma_holds_middle("invalid bind address "@ + address(port) + ": "@, why@, Seq::empty());
    lemma_holds_middle("serve error: "@, why@, Seq::empty());
}

/// With the gateway start the jacks that somebody wants and that were never started,
/// each once.
pub proof fn wanted_jacks_start_with_the_gateway(m: AppModel, i: int)
    requires
        0 <= i < m.config.jacks.len(),
    ensures
        starts_with_gateway(m, i) <==> {
            let name = m.config.jacks[i].name;
            &&& switched_on(m.config, name) || exists|client: Seq<char>| wanted_by(m.config, name, client)
            &&& forall|k: int| 0 <= k < i ==> (#[trigger] m.config.jacks[k]).name != name
            &&& !m.upstream.contains_key(name)
        },
{
    let name = m.config.jacks[i].name;
    jacks_run_for_somebody(m.config, name);
    crate::config::grants::lemma_first_named(m.config.jacks, name);
    if forall|k: int| 0 <= k < i ==> (#[trigger] m.config.jacks[k]).name != name {
        lemma_is_first_named(m.config.jacks, name, i);
    }
}

// ---- what comes back -----------------------------------------------------

/// The answer of a server reaches the caller as it came. A call that failed on the way
/// is answered with words that name the jack and say why, as an error that the model
/// reads.
pub proof fn answers_of_servers_pass_through(req: RequestModel, jack: Seq<char>, v: Doc, why: Seq<char>)
    ensures
        ({
            let o = routed_outcome(req, jack, Ok(v));
            &&& o.http_status == 200
            &&& o.body is Some
            &&& o.body->0.member("id"@) == req.id
            &&& o.body->0.member("result"@) == Some(v)
            &&& o.body->0.member("error"@) is None
        }),
        exists|words: Seq<char>|
            {
                &&& routed_outcome(req, jack, Err(why)) == #[trigger] text_outcome(req, words, true)
                &&& holds(words, jack)
                &&& holds(words, why)
            },
{
    answers_carry_id_and_result(req, v);
    let words = super::handlers::call_failed_words(jack, why);
    let head = "Patchbay: call to server '"@;
    let middle = "' failed ("@;
    assert(words =~= head + jack + (middle + why + ")."@));
    lemma_holds_middle(head, jack, middle + why + ")."@);
    assert(words =~= (head + jack + middle) + why + ")."@);
    lemma_holds_middle(head + jack + middle, why, ")."@);
    assert(routed_outcome(req, jack, Err(why)) == text_outcome(req, words, true));
}

proof fn lemma_holds_wider(a: Seq<char>, b: Seq<char>, c: Seq<char>, p: Seq<char>)
    requires
        holds(b, p),
    ensures
        holds(a + b + c, p),
        holds(b + c, p),
        holds(a + b, p),
{
    let i = choose|i: int| occurs_at(b, p, i);
    let j = a.len() + i;
    assert((a + b + c).subrange(j, j + p.len()) =~= b.subrange(i, i + p.len()));
    assert(occurs_at(a + b + c, p, j));
    assert((b + c).subrange(i, i + p.len()) =~= b.subrange(i, i + p.len()));
    assert(occurs_at(b + c, p, i));
    assert((a + b).subrange(j, j + p.len()) =~= b.subrange(i, i + p.len()));
    assert(occurs_at(a + b, p, j));
}

proof fn lemma_joined_holds(parts: Seq<Seq<char>>, sep: Seq<char>, i: int)
    requires
        0 <= i < parts.len(),
    ensures
        holds(joined(parts, sep), parts[i]),
    decreases parts.len(),
{
    if parts.len() == 1 {
        assert(parts[0].subrange(0, parts[0].len() as int) =~= parts[0]);
        assert(occurs_at(parts[0], parts[0], 0));
    } else {
        let front = parts.drop_last();
        if i < front.len() {
            lemma_joined_holds(front, sep, i);
            assert(front[i] == parts[i]);
            lemma_holds_wider(Seq::empty(), joined(front, sep), sep + parts.last(), parts[i]);
            assert(joined(front, sep) + (sep + parts.last()) =~= joined(parts, sep));
        } else {
            lemma_holds_middle(joined(front, sep) + sep, parts.last(), Seq::empty());
        }
    }
}

/// A listing tells of every jack that is configured: its name, its transport, its
/// status, whether it is on, and how many tools it has.
pub proof fn listings_tell_of_every_jack(m: AppModel, i: int)
    requires
        0 <= i < m.config.jacks.len(),
    ensures
        ({
            let s = m.summary(m.config.jacks[i]);
            let text = listing(m);
            &&& holds(text, s.name)
            &&& holds(text, s.transport)
            &&& holds(text, "patched="@ + bool_word(s.patched))
            &&& holds(text, "status="@ + s.status)
            &&& holds(text, "tools="@ + decimal(s.tool_count))
        }),
{
    lemma_listing_line(m, i);
    let s = m.summary(m.config.jacks[i]);
    lemma_summary_line(s);
    let text = listing(m);
    let line = summary_line(s);
    lemma_holds_through(text, line, s.name);
    lemma_holds_through(text, line, s.transport);
    lemma_holds_through(text, line, "patched="@ + bool_word(s.patched));
    lemma_holds_through(text, line, "status="@ + s.status);
    lemma_holds_through(text, line, "tools="@ + decimal(s.tool_count));
}

proof fn lemma_listing_line(m: AppModel, i: int)
    requires
        0 <= i < m.config.jacks.len(),
    ensures
        holds(listing(m), summary_line(m.summary(m.config.jacks[i]))),
{
    let lines = m.config.jacks.map_values(|j: JackModel| summary_line(m.summary(j)));
    let parts = seq!["Patchbay jacks:"@] + lines;
    assert(parts[i + 1] == summary_line(m.summary(m.config.jacks[i])));
    lemma_joined_holds(parts, "\n"@, i + 1);
    assert(listing(m) == joined(parts, "\n"@));
}

proof fn lemma_holds_through(text: Seq<char>, line: Seq<char>, p: Seq<char>)
    requires
        holds(text, line),
        holds(line, p),
    ensures
        holds(text, p),
{
    let i = choose|i: int| occurs_at(text, line, i);
    let k = choose|k: int| occurs_at(line, p, k);
    let found = text.subrange(i + k, i + k + p.len());
    assert forall|x: int| 0 <= x < p.len() implies #[trigger] found[x] == line.subrange(k, k + p.len())[x] by {
        assert(text.subrange(i, i + line.len())[k + x] == text[i + k + x]);
    }
    assert(found =~= line.subrange(k, k + p.len()));
    assert(occurs_at(text, p, i + k));
}

proof fn lemma_summary_line(s: SummaryModel)
    ensures
        holds(summary_line(s), s.name),
        holds(summary_line(s), s.transport),
        holds(summary_line(s), "patched="@ + bool_word(s.patched)),
        holds(summary_line(s), "status="@ + s.status),
        holds(summary_line(s), "tools="@ + decimal(s.tool_count)),
{
    reveal_strlit("): patched=");
    reveal_strlit("patched=");
    reveal_strlit(", status=");
    reveal_strlit("status=");
    reveal_strlit(", tools=");
    reveal_strlit("tools=");
    reveal_strlit("): ");
    reveal_strlit(", ");
    assert("): patched="@ =~= "): "@ + "patched="@);
    assert(", status="@ =~= ", "@ + "status="@);
    assert(", tools="@ =~= ", "@ + "tools="@);
    let line = summary_line(s);
    let a = "- "@;
    let n = line.len() as int;
    let p1 = a + s.name;
    assert(line =~= a + s.name + line.subrange(p1.len() as int, n));
    lemma_holds_middle(a, s.name, line.subrange(p1.len() as int, n));
    let p2 = p1 + " ("@;
    assert(line =~= p2 + s.transport + line.subrange((p2 + s.transport).len() as int, n));
    lemma_holds_middle(p2, s.transport, line.subrange((p2 + s.transport).len() as int, n));
    let p3 = p2 + s.transport + "): "@;
    let w3 = "patched="@ + bool_word(s.patched);
    assert(line =~= p3 + w3 + line.subrange((p3 + w3).len() as int, n));
    lemma_holds_middle(p3, w3, line.subrange((p3 + w3).len() as int, n));
    let p4 = p3 + w3 + ", "@;
    let w4 = "status="@ + s.status;
    assert(line =~= p4 + w4 + line.subrange((p4 + w4).len() as int, n));
    lemma_holds_middle(p4, w4, line.subrange((p4 + w4).len() as int, n));
    let p5 = p4 + w4 + ", "@;
    let w5 = "tools="@ + decimal(s.tool_count);
    assert(line =~= p5 + w5);
    lemma_holds_middle(p5, w5, Seq::empty());
}

/// What the caller reads of a change says what was changed and what came of it: a jack
/// that was added with its status, one that was removed, one that was switched, and
/// otherwise why not.
pub proof fn changes_are_told(req: RequestModel, s: SummaryModel, name: Seq<char>, t: ToggleModel, e: RemoveErrorModel, why: Seq<char>)
    ensures
        holds(added_words(s), s.name),
        holds(added_words(s), s.status),
        holds(toggled_words(name, t), name),
        holds(toggled_words(name, t), t.status),
        exists|words: Seq<char>|
            removed_outcome(req, name, None) == #[trigger] text_outcome(req, words, false) && holds(words, name),
        exists|words: Seq<char>|
            removed_outcome(req, name, Some(e)) == #[trigger] text_outcome(req, words, true) && holds(words, e.message()),
        holds(add_refused_words(RefusalModel::Policy(why)), why),
        holds(add_refused_words(RefusalModel::Invalid(AddErrorModel::PersistFailed(why))), why),
        holds(add_refused_words(RefusalModel::Invalid(AddErrorModel::MissingRequiredField(why))), why),
        holds(add_refused_words(RefusalModel::Invalid(AddErrorModel::InvalidName(name))), name),
        holds(add_refused_words(RefusalModel::Invalid(AddErrorModel::DuplicateName(name))), name),
        holds(RemoveErrorModel::NotFound(name).message(), name),
        holds(RemoveErrorModel::PersistFailed(why).message(), why),
        holds(super::policy::add_refusal(name), name),
        holds(super::policy::enable_refusal(name), name),
{
    let a = added_words(s);
    let p1 = "Patchbay: added jack '"@;
    assert(a =~= p1 + s.name + a.subrange((p1 + s.name).len() as int, a.len() as int));
    lemma_holds_middle(p1, s.name, a.subrange((p1 + s.name).len() as int, a.len() as int));
    let p2 = p1 + s.name + "' ("@ + s.transport + "), status: "@;
    assert(a =~= p2 + s.status + a.subrange((p2 + s.status).len() as int, a.len() as int));
    lemma_holds_middle(p2, s.status, a.subrange((p2 + s.status).len() as int, a.len() as int));
    let g = toggled_words(name, t);
    let q1 = "Patchbay: jack '"@;
    assert(g =~= q1 + name + g.subrange((q1 + name).len() as int, g.len() as int));
    lemma_holds_middle(q1, name, g.subrange((q1 + name).len() as int, g.len() as int));
    let state = if t.patched {
        "patched (on)"@
    } else {
        "unpatched (off)"@
    };
    let q2 = q1 + name + "' is now "@ + state + " (status: "@;
    assert(g =~= q2 + t.status + ")."@);
    lemma_holds_middle(q2, t.status, ")."@);
    let gone = "Patchbay: removed jack '"@ + name + "'."@;
    lemma_holds_middle("Patchbay: removed jack '"@, name, "'."@);
    assert(removed_outcome(req, name, None) == text_outcome(req, gone, false));
    let kept = "Patchbay: could not remove jack: "@ + e.message();
    lemma_holds_middle("Patchbay: could not remove jack: "@, e.message(), Seq::empty());
    assert(removed_outcome(req, name, Some(e)) == text_outcome(req, kept, true));
    let head = "Patchbay: could not add jack: "@;
    assert(why.subrange(0, why.len() as int) =~= why);
    assert(occurs_at(why, why, 0));
    lemma_holds_middle("failed to persist config: "@, why, Seq::empty());
    lemma_holds_wider(head, "failed to persist config: "@ + why, Seq::empty(), why);
    lemma_holds_middle(head, why, Seq::empty());
    let bad = AddErrorModel::InvalidName(name).message();
    let tail = "': must match [A-Za-z0-9_-]+, contain no '__', and be <= 40 chars"@;
    lemma_holds_middle("invalid jack name '"@, name, tail);
    lemma_holds_wider(head, bad, Seq::empty(), name);
    let twice = AddErrorModel::DuplicateName(name).message();
    lemma_holds_middle("a jack named '"@, name, "' already exists"@);
    lemma_holds_wider(head, twice, Seq::empty(), name);
    lemma_holds_middle("jack '"@, name, "' not found"@);
    let r = super::policy::add_refusal(name);
    let rh = "Patchbay: agents may not add a server that is already switched on. Re-send this with \"patched\": false and the definition for '"@;
    assert(r =~= rh + name + r.subrange((rh + name).len() as int, r.len() as int));
    lemma_holds_middle(rh, name, r.subrange((rh + name).len() as int, r.len() as int));
    let x = super::policy::enable_refusal(name);
    let xh = "Patchbay: agents may switch a server OFF but not ON, so '"@;
    assert(x =~= xh + name + x.subrange((xh + name).len() as int, x.len() as int));
    lemma_holds_middle(xh, name, x.subrange((xh + name).len() as int, x.len() as int));
}

/// A session is live while the gateway keeps it, whatever state it is in. A stream for
/// one that is not is refused, by its own status where it is not named at all.
pub proof fn sessions_live_while_they_are_kept(m: AppModel, session: Option<Seq<char>>)
    ensures
        is_live(m, session) <==> session is Some && m.sessions.contains_key(session->0),
        streamless_reply(true).status == 404,
        streamless_reply(false).status == 400,
{
}

/// The log names a client as the gateway does: a new one by the name that it will have,
/// and any other by that of its session.
pub proof fn the_log_names_the_client(m: AppModel, req: RequestModel, id: Seq<char>, header: Option<Seq<char>>)
    ensures
        req.method == "initialize"@ ==> logged_client(m, req, Some(id), header) == identity(header, req.params),
        req.method != "initialize"@ && m.sessions.contains_key(id) ==> logged_client(m, req, Some(id), header)
            == m.sessions[id].client_name,
        req.method != "initialize"@ && !m.sessions.contains_key(id) ==> logged_client(m, req, Some(id), header) is None,
{
}

/// An error over HTTP has its status and says what it is.
pub proof fn http_errors_say_what_they_are(status: u16, error: Seq<char>)
    ensures
        error_reply(status, error).status == status,
        error_reply(status, error).body matches BodyModel::Json(d) && d.member("error"@) == Some(Doc::Text(error)),
{
    added_member_is_found(Doc::empty(), "error"@, Doc::Text(error), "error"@);
}

/// Clients without a list of their own in use are alike: whatever they call and list,
/// what follows is the same for each of them that nobody denied.
pub proof fn followers_are_treated_alike(m: AppModel, req: RequestModel, a: Option<Seq<char>>, b: Option<Seq<char>>)
    requires
        a is Some ==> !m.config.forbidden_clients.contains(a->0) && !(m.config.client_overrides.contains_key(a->0)
            && m.config.client_overrides[a->0].enabled),
        b is Some ==> !m.config.forbidden_clients.contains(b->0) && !(m.config.client_overrides.contains_key(b->0)
            && m.config.client_overrides[b->0].enabled),
    ensures
        call_step(m, req, a) == call_step(m, req, b),
        visible_tools(m, a) == visible_tools(m, b),
{
    let all = all_tools(m.upstream);
    let pa = |t: (Seq<char>, Doc)| super::handlers::sees(m.config, t.0, a);
    let pb = |t: (Seq<char>, Doc)| super::handlers::sees(m.config, t.0, b);
    assert forall|t: (Seq<char>, Doc)| #[trigger] pa(t) == pb(t) by {}
    assert(pa =~= pb);
}

/// A client that may use every jack that offers tools sees each of their tools once,
/// beside the gateway's own four.
pub proof fn nothing_is_listed_twice(m: AppModel, client: Option<Seq<char>>)
    requires
        m.upstream.dom().finite(),
        forall|jack: Seq<char>|
            m.upstream.contains_key(jack) && #[trigger] m.upstream[jack].status is Running ==> is_configured(m, jack)
                && may_use(m, client, jack),
        client is Some ==> !m.config.forbidden_clients.contains(client->0),
    ensures
        visible_tools(m, client).len() == all_tools(m.upstream).len() + 4,
        forall|jack: Seq<char>| #[trigger]
            m.upstream.contains_key(jack) && m.upstream[jack].status is Running
                && crate::config::validate::valid_jack_name(jack) ==> all_tools(m.upstream).filter(
                crate::app_state::jacks::tools_under(jack),
            ).len() == m.upstream[jack].tool_cache.len(),
{
    let all = all_tools(m.upstream);
    let pred = |t: (Seq<char>, Doc)| super::handlers::sees(m.config, t.0, client);
    assert forall|i: int| 0 <= i < all.len() implies pred(#[trigger] all[i]) by {
        let (jack, t) = all[i];
        assert(all.contains((jack, t)));
        offered_tools_are_listed(m.upstream, jack, t);
        assert(m.upstream[jack].status is Running);
        grants_are_read_off_the_configuration(m, client, jack);
    }
    crate::name_map::lemma_filter_same(all, pred);
    assert forall|jack: Seq<char>| #[trigger]
        m.upstream.contains_key(jack) && m.upstream[jack].status is Running
            && crate::config::validate::valid_jack_name(jack) implies all.filter(
        crate::app_state::jacks::tools_under(jack),
    ).len() == m.upstream[jack].tool_cache.len() by {
        crate::app_state::jacks::lemma_tool_count(m, jack);
    }
    super::builtin::own_tools_have_their_names();
}

/// A tool is listed under the name of its jack, two underscores and its own name, and all
/// else of it is as the server said.
pub proof fn tools_are_listed_under_their_jack(jack: Seq<char>, t: Doc, name: Seq<char>, key: Seq<char>)
    requires
        t is Object,
        t.member("name"@) == Some(Doc::Text(name)),
    ensures
        merged_tool(jack, t).member("name"@) == Some(Doc::Text(jack + "__"@ + name)),
        key != "name"@ ==> merged_tool(jack, t).member(key) == t.member(key),
{
    super::tools::merging_rewrites_name_only(jack, t, key);
    crate::json::lemma_put_member(t->Object_0, "name"@, Doc::Text(jack + "__"@ + name), "name"@);
}

/// What a client is shown it can call: a call under the name that a tool is listed by is
/// sent to the jack that offers the tool, for that very tool.
pub proof fn what_is_listed_can_be_called(
    m: AppModel,
    req: RequestModel,
    client: Option<Seq<char>>,
    params: Doc,
    jack: Seq<char>,
    t: Doc,
    name: Seq<char>,
    handle: u64,
)
    requires
        on_offer(m, jack, t),
        is_configured(m, jack),
        may_use(m, client, jack),
        m.upstream[jack].client == Some(handle),
        jack.last() != '_',
        t is Object,
        t.member("name"@) == Some(Doc::Text(name)),
        req.params == Some(params),
        params.member("name"@) == merged_tool(jack, t).member("name"@),
        !is_own_tool(jack + "__"@ + name),
    ensures
        call_step(m, req, client) matches StepModel::Route { handle: h, jack: j, tool: n, .. } && h == handle && j == jack
            && n == name,
{
    tools_are_listed_under_their_jack(jack, t, name, "name"@);
    crate::config::validate::valid_names_are_short_and_plain(jack);
    reveal_strlit("__");
    let full = jack + "__"@ + name;
    assert forall|k: int| 0 <= k < jack.len() implies !(#[trigger] full[k] == '_' && full[k + 1] == '_') by {
        if k < jack.len() - 1 {
            assert(full[k] == jack[k] && full[k + 1] == jack[k + 1]);
        } else {
            assert(full[k] == jack.last());
        }
    }
    assert(names_tool(full, jack, name));
    permitted_calls_are_sent_on(m, req, client, params, full, jack, name, handle);
}

/// A call that lacks what it needs, and one to a jack whose client is gone, is answered
/// with words that the model reads as an error: it changes nothing and is not sent on.
pub proof fn incomplete_calls_are_answered(
    m: AppModel,
    req: RequestModel,
    client: Option<Seq<char>>,
    params: Doc,
    name: Seq<char>,
    jack: Seq<char>,
    tool: Seq<char>,
)
    requires
        req.params == Some(params),
        params.member("name"@) == Some(Doc::Text(name)),
        client is Some ==> !m.config.forbidden_clients.contains(client->0),
    ensures
        (name == "patchbay__remove_jack"@ || name == "patchbay__toggle_jack"@) && params.member("arguments"@) is None
            ==> exists|words: Seq<char>|
            words.len() > 0 && call_step(m, req, client) == StepModel::Reply(#[trigger] text_outcome(req, words, true)),
        name == "patchbay__list_jacks"@ ==> call_step(m, req, client) == StepModel::Reply(
            text_outcome(req, listing(m), false),
        ),
        names_tool(name, jack, tool) && !is_own_tool(name) && is_configured(m, jack) && may_use(m, client, jack)
            && m.upstream.contains_key(jack) && m.upstream[jack].status is Running && m.upstream[jack].client is None
            ==> exists|words: Seq<char>|
            {
                &&& call_step(m, req, client) == StepModel::Reply(#[trigger] text_outcome(req, words, true))
                &&& holds(words, jack)
            },
{
    lemma_own_tools_differ();
    if (name == "patchbay__remove_jack"@ || name == "patchbay__toggle_jack"@) && params.member("arguments"@) is None {
        reveal_strlit("Patchbay: remove_jack requires 'name' (string).");
        reveal_strlit("Patchbay: toggle_jack requires 'name' (string) and 'patched' (boolean).");
        let words = if name == "patchbay__remove_jack"@ {
            "Patchbay: remove_jack requires 'name' (string)."@
        } else {
            "Patchbay: toggle_jack requires 'name' (string) and 'patched' (boolean)."@
        };
        assert(words.len() > 0);
        assert(call_step(m, req, client) == StepModel::Reply(text_outcome(req, words, true)));
    }
    if names_tool(name, jack, tool) && !is_own_tool(name) && is_configured(m, jack) && may_use(m, client, jack)
        && m.upstream.contains_key(jack) && m.upstream[jack].status is Running && m.upstream[jack].client is None {
        grants_are_read_off_the_configuration(m, client, jack);
        lemma_names_tool(name, jack, tool);
        let why = "jack '"@ + jack + "' has no active client"@;
        let words = super::handlers::call_failed_words(jack, why);
        let head = "Patchbay: call to server '"@;
        assert(words =~= head + jack + ("' failed ("@ + why + ")."@));
        lemma_holds_middle(head, jack, "' failed ("@ + why + ")."@);
        assert(call_step(m, req, client) == StepModel::Reply(text_outcome(req, words, true)));
    }
}

} // verus!
