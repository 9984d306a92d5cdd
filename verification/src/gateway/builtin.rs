//! The tools that the gateway answers itself.

use vstd::prelude::*;

use crate::json::{Doc, Json};
use crate::name_map::views;

verus! {

pub const BUILTIN_ADD_JACK: &'static str = "patchbay__add_jack";

pub const BUILTIN_REMOVE_JACK: &'static str = "patchbay__remove_jack";

pub const BUILTIN_LIST_JACKS: &'static str = "patchbay__list_jacks";

pub const BUILTIN_TOGGLE_JACK: &'static str = "patchbay__toggle_jack";

/// An input of a tool: its type and what it is for.
pub open spec fn input_doc(kind: Seq<char>, description: Seq<char>) -> Doc {
    Doc::empty().with("type"@, Doc::Text(kind)).with("description"@, Doc::Text(description))
}

fn input(kind: &str, description: &str) -> (r: Json)
    ensures
        r@ == input_doc(kind@, description@),
{
    Json::empty_object().with("type", Json::from_text(kind)).with("description", Json::from_text(description))
}

/// A tool: its name, what it does, and the inputs it takes.
pub open spec fn tool_doc(name: Seq<char>, description: Seq<char>, inputs: Doc) -> Doc {
    Doc::empty().with("name"@, Doc::Text(name)).with("description"@, Doc::Text(description)).with(
        "inputSchema"@,
        inputs,
    )
}

fn tool(name: &str, description: &str, inputs: Json) -> (r: Json)
    ensures
        r@ == tool_doc(name@, description@, inputs@),
{
    Json::empty_object().with("name", Json::from_text(name)).with("description", Json::from_text(description)).with(
        "inputSchema",
        inputs,
    )
}

/// The inputs of a tool, and those of them that it needs.
pub open spec fn inputs_doc(properties: Doc) -> Doc {
    Doc::empty().with("type"@, Doc::Text("object"@)).with("properties"@, properties)
}

fn inputs(properties: Json) -> (r: Json)
    ensures
        r@ == inputs_doc(properties@),
{
    Json::empty_object().with("type", Json::from_text("object")).with("properties", properties)
}

pub open spec fn add_jack_doc() -> Doc {
    let properties = Doc::empty().with(
        "name"@,
        input_doc("string"@, "Unique jack name: [A-Za-z0-9_-]+, no '__', <= 40 chars. Used as the tool namespace prefix <name>__<tool>."@),
    ).with(
        "patched"@,
        Doc::empty().with("type"@, Doc::Text("boolean"@)).with("default"@, Doc::Bool(true)).with("description"@, Doc::Text("true (default) starts the jack immediately; false adds it disabled (no tools until toggled on)."@)),
    ).with(
        "transport"@,
        Doc::empty().with("type"@, Doc::Text("string"@)).with("enum"@, Doc::Array(seq![Doc::Text("stdio"@), Doc::Text("streamable-http"@)])).with("description"@, Doc::Text("Transport discriminator. 'stdio': spawn a local process (needs 'command'). 'streamable-http': connect to a remote MCP server (needs 'url')."@)),
    ).with(
        "command"@,
        input_doc("string"@, "(stdio) Executable to run, e.g. 'npx'. Required when transport is 'stdio'."@),
    ).with(
        "args"@,
        Doc::empty().with("type"@, Doc::Text("array"@)).with("items"@, Doc::empty().with("type"@, Doc::Text("string"@))).with("description"@, Doc::Text("(stdio) Arguments passed to 'command'."@)),
    ).with(
        "env"@,
        input_doc("object"@, "(stdio) Environment variables. Values may be plaintext; Patchbay DPAPI-encrypts them on save."@),
    ).with(
        "url"@,
        input_doc("string"@, "(streamable-http) MCP server URL. Required when transport is 'streamable-http'."@),
    ).with(
        "headers"@,
        input_doc("object"@, "(streamable-http) Request headers, e.g. Authorization. Values may be plaintext; encrypted on save."@),
    ).with(
        "sharing"@,
        Doc::empty().with("type"@, Doc::Text("string"@)).with("enum"@, Doc::Array(seq![Doc::Text("shared"@), Doc::Text("per_client_session"@)])).with("default"@, Doc::Text("shared"@)).with("description"@, Doc::Text("Sharing model; v0.1 implements 'shared'."@)),
    );
    tool_doc("patchbay__add_jack"@, "Add a new MCP server (\"jack\") to Patchbay. Its tools become available to every agent as namespaced tools <jack>__<tool>. Provide a unique 'name', a 'transport' ('stdio' with a 'command', or 'streamable-http' with a 'url'), and that transport's fields. The jack is saved to patchbay.json and, when patched (the default), started immediately. Returns the new jack's runtime status and tool count."@, inputs_doc(properties).with("required"@, Doc::Array(seq![Doc::Text("name"@), Doc::Text("transport"@)])))
}

fn add_jack_tool() -> (r: Json)
    ensures
        r@ == add_jack_doc(),
{
    let properties = Json::empty_object().with(
        "name",
        input("string", "Unique jack name: [A-Za-z0-9_-]+, no '__', <= 40 chars. Used as the tool namespace prefix <name>__<tool>."),
    ).with(
        "patched",
        Json::empty_object().with("type", Json::from_text("boolean")).with("default", Json::Bool(true)).with("description", Json::from_text("true (default) starts the jack immediately; false adds it disabled (no tools until toggled on).")),
    ).with(
        "transport",
        Json::empty_object().with("type", Json::from_text("string")).with("enum", Json::list_2(Json::from_text("stdio"), Json::from_text("streamable-http"))).with("description", Json::from_text("Transport discriminator. 'stdio': spawn a local process (needs 'command'). 'streamable-http': connect to a remote MCP server (needs 'url').")),
    ).with(
        "command",
        input("string", "(stdio) Executable to run, e.g. 'npx'. Required when transport is 'stdio'."),
    ).with(
        "args",
        Json::empty_object().with("type", Json::from_text("array")).with("items", Json::empty_object().with("type", Json::from_text("string"))).with("description", Json::from_text("(stdio) Arguments passed to 'command'.")),
    ).with(
        "env",
        input("object", "(stdio) Environment variables. Values may be plaintext; Patchbay DPAPI-encrypts them on save."),
    ).with(
        "url",
        input("string", "(streamable-http) MCP server URL. Required when transport is 'streamable-http'."),
    ).with(
        "headers",
        input("object", "(streamable-http) Request headers, e.g. Authorization. Values may be plaintext; encrypted on save."),
    ).with(
        "sharing",
        Json::empty_object().with("type", Json::from_text("string")).with("enum", Json::list_2(Json::from_text("shared"), Json::from_text("per_client_session"))).with("default", Json::from_text("shared")).with("description", Json::from_text("Sharing model; v0.1 implements 'shared'.")),
    );
    tool("patchbay__add_jack", "Add a new MCP server (\"jack\") to Patchbay. Its tools become available to every agent as namespaced tools <jack>__<tool>. Provide a unique 'name', a 'transport' ('stdio' with a 'command', or 'streamable-http' with a 'url'), and that transport's fields. The jack is saved to patchbay.json and, when patched (the default), started immediately. Returns the new jack's runtime status and tool count.", inputs(properties).with("required", Json::list_2(Json::from_text("name"), Json::from_text("transport"))))
}

pub open spec fn remove_jack_doc() -> Doc {
    let properties = Doc::empty().with(
        "name"@,
        input_doc("string"@, "Name of the jack to remove."@),
    );
    tool_doc("patchbay__remove_jack"@, "Remove a jack from Patchbay: stops its upstream client if running, deletes it from patchbay.json, and broadcasts the change. Other agents will stop seeing its tools."@, inputs_doc(properties).with("required"@, Doc::Array(seq![Doc::Text("name"@)])))
}

fn remove_jack_tool() -> (r: Json)
    ensures
        r@ == remove_jack_doc(),
{
    let properties = Json::empty_object().with(
        "name",
        input("string", "Name of the jack to remove."),
    );
    tool("patchbay__remove_jack", "Remove a jack from Patchbay: stops its upstream client if running, deletes it from patchbay.json, and broadcasts the change. Other agents will stop seeing its tools.", inputs(properties).with("required", Json::list_1(Json::from_text("name"))))
}

pub open spec fn list_jacks_doc() -> Doc {
    let properties = Doc::empty();
    tool_doc("patchbay__list_jacks"@, "List every jack configured in Patchbay with its patched state, transport type, runtime status, and tool count. Use this to read Patchbay's current state without opening the config file."@, inputs_doc(properties))
}

fn list_jacks_tool() -> (r: Json)
    ensures
        r@ == list_jacks_doc(),
{
    let properties = Json::empty_object();
    tool("patchbay__list_jacks", "List every jack configured in Patchbay with its patched state, transport type, runtime status, and tool count. Use this to read Patchbay's current state without opening the config file.", inputs(properties))
}

pub open spec fn toggle_jack_doc() -> Doc {
    let properties = Doc::empty().with(
        "name"@,
        input_doc("string"@, "Name of the jack to toggle."@),
    ).with(
        "patched"@,
        input_doc("boolean"@, "true = ON (start the upstream); false = OFF (stop it)."@),
    );
    tool_doc("patchbay__toggle_jack"@, "Turn a jack ON (patched:true) or OFF (patched:false) in Patchbay. Takes effect immediately for every connected agent (a tools/list_changed broadcast is sent). This is the same pipeline as the tray checkbox toggle."@, inputs_doc(properties).with("required"@, Doc::Array(seq![Doc::Text("name"@), Doc::Text("patched"@)])))
}

fn toggle_jack_tool() -> (r: Json)
    ensures
        r@ == toggle_jack_doc(),
{
    let properties = Json::empty_object().with(
        "name",
        input("string", "Name of the jack to toggle."),
    ).with(
        "patched",
        input("boolean", "true = ON (start the upstream); false = OFF (stop it)."),
    );
    tool("patchbay__toggle_jack", "Turn a jack ON (patched:true) or OFF (patched:false) in Patchbay. Takes effect immediately for every connected agent (a tools/list_changed broadcast is sent). This is the same pipeline as the tray checkbox toggle.", inputs(properties).with("required", Json::list_2(Json::from_text("name"), Json::from_text("patched"))))
}

/// The four tools, in the order they are listed.
pub open spec fn builtin_docs() -> Seq<Doc> {
    seq![add_jack_doc(), remove_jack_doc(), list_jacks_doc(), toggle_jack_doc()]
}

/// The tools that the gateway answers itself. They are listed whichever jacks
/// are switched on.
pub fn builtin_admin_tools() -> (r: Vec<Json>)
    ensures
        views(r@) == builtin_docs(),
{
    let mut out: Vec<Json> = Vec::new();
    out.push(add_jack_tool());
    out.push(remove_jack_tool());
    out.push(list_jacks_tool());
    out.push(toggle_jack_tool());
    assert(views(out@) =~= builtin_docs());
    out
}

/// The names under which the gateway's own tools are listed are those that it
/// answers itself.
pub proof fn own_tools_have_their_names()
    ensures
        builtin_docs().len() == 4,
        builtin_docs()[0].member("name"@) == Some(Doc::Text("patchbay__add_jack"@)),
        builtin_docs()[1].member("name"@) == Some(Doc::Text("patchbay__remove_jack"@)),
        builtin_docs()[2].member("name"@) == Some(Doc::Text("patchbay__list_jacks"@)),
        builtin_docs()[3].member("name"@) == Some(Doc::Text("patchbay__toggle_jack"@)),
{
    assert forall|name: Seq<char>, description: Seq<char>, inputs: Doc| #[trigger]
        tool_doc(name, description, inputs).member("name"@) == Some(Doc::Text(name)) by {
        let d0 = Doc::empty();
        let d1 = d0.with("name"@, Doc::Text(name));
        let d2 = d1.with("description"@, Doc::Text(description));
        crate::json::added_member_is_found(d0, "name"@, Doc::Text(name), "name"@);
        crate::json::added_member_is_found(d1, "description"@, Doc::Text(description), "name"@);
        crate::json::added_member_is_found(d2, "inputSchema"@, inputs, "name"@);
    }
}

/// The gateway's own tools say what they need: a name and a transport to add a jack, its
/// name to remove it, its name and the switch to switch it, and nothing to list them.
pub proof fn own_tools_say_what_they_need()
    ensures
        builtin_docs()[0].member("inputSchema"@) is Some,
        builtin_docs()[0].member("inputSchema"@)->0.member("required"@) == Some(
            Doc::Array(seq![Doc::Text("name"@), Doc::Text("transport"@)]),
        ),
        builtin_docs()[1].member("inputSchema"@) is Some,
        builtin_docs()[1].member("inputSchema"@)->0.member("required"@) == Some(Doc::Array(seq![Doc::Text("name"@)])),
        builtin_docs()[2].member("inputSchema"@) is Some,
        builtin_docs()[2].member("inputSchema"@)->0.member("required"@) is None,
        builtin_docs()[3].member("inputSchema"@) is Some,
        builtin_docs()[3].member("inputSchema"@)->0.member("required"@) == Some(
            Doc::Array(seq![Doc::Text("name"@), Doc::Text("patched"@)]),
        ),
{
    reveal_strlit("name");
    reveal_strlit("description");
    reveal_strlit("inputSchema");
    reveal_strlit("type");
    reveal_strlit("properties");
    reveal_strlit("required");
    assert("name"@.len() == 4 && "description"@.len() == 11 && "inputSchema"@.len() == 11 && "type"@.len() == 4
        && "properties"@.len() == 10 && "required"@.len() == 8);
    assert("description"@[0] == 'd' && "inputSchema"@[0] == 'i');
    assert forall|name: Seq<char>, description: Seq<char>, inputs: Doc| #[trigger]
        tool_doc(name, description, inputs).member("inputSchema"@) == Some(inputs) by {
        let d0 = Doc::empty();
        let d1 = d0.with("name"@, Doc::Text(name));
        let d2 = d1.with("description"@, Doc::Text(description));
        crate::json::added_member_is_found(d0, "name"@, Doc::Text(name), "inputSchema"@);
        crate::json::added_member_is_found(d1, "description"@, Doc::Text(description), "inputSchema"@);
        crate::json::added_member_is_found(d2, "inputSchema"@, inputs, "inputSchema"@);
    }
    assert forall|properties: Doc, needed: Doc|
        inputs_doc(properties).member("required"@) is None && #[trigger] inputs_doc(properties).with(
            "required"@,
            needed,
        ).member("required"@) == Some(needed) by {
        let d0 = Doc::empty();
        let d1 = d0.with("type"@, Doc::Text("object"@));
        let d2 = d1.with("properties"@, properties);
        crate::json::added_member_is_found(d0, "type"@, Doc::Text("object"@), "required"@);
        crate::json::added_member_is_found(d1, "properties"@, properties, "required"@);
        crate::json::added_member_is_found(d2, "required"@, needed, "required"@);
    }
    let none = Doc::empty();
    assert(inputs_doc(none).with("required"@, none).member("required"@) == Some(none));
}

} // verus!
