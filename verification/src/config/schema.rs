//! The shape of the configuration, and what it grants to each client.

use vstd::prelude::*;

use crate::json::{json_written, write_json, Doc, Json};
use crate::name_map::{replica_opt, replicas, view_opt, views, NameMap, Replica};
use crate::text::{lower_text, same_text, trim_text, texts, lowered, trimmed};

verus! {

/// Default gateway port; the gateway binds `127.0.0.1` only.
pub const DEFAULT_PORT: u16 = 39100;

/// Current version of the configuration file's schema.
pub const CURRENT_VERSION: u32 = 1;

/// Which user interface the tray icon drives.
#[derive(Clone, Copy, Debug, PartialEq, Eq, Structural)]
pub enum UiMode {
    /// Native menu on both buttons.
    Tray,
    /// Popover window on left-click; a minimal native menu on right-click.
    Window,
    /// Popover window on left-click; the full native menu on right-click.
    Both,
}

/// Upstream sharing model.
#[derive(Clone, Copy, Debug, PartialEq, Eq, Structural)]
pub enum Sharing {
    /// One shared child or connection serves every agent session.
    Shared,
    /// One child or connection per client session.
    PerClientSession,
}

/// How a jack talks to its MCP server.
#[derive(Debug, PartialEq, Eq)]
pub enum JackTransport {
    /// A local process that speaks newline-delimited JSON-RPC over its stdio.
    Stdio { command: String, args: Vec<String>, env: NameMap<String> },
    /// A remote Streamable HTTP MCP server.
    StreamableHttp { url: String, headers: NameMap<String> },
}

/// A single MCP server ("jack") that can be patched in or out.
#[derive(Debug, PartialEq, Eq)]
pub struct JackConfig {
    pub name: String,
    pub patched: bool,
    pub transport: JackTransport,
    pub sharing: Sharing,
    /// Reserved for tool lists; opaque.
    pub tools: Option<Json>,
}

/// What a request to add a jack carries.
#[derive(Debug, PartialEq, Eq)]
pub struct JackConfigInput {
    pub name: String,
    pub patched: bool,
    pub transport: JackTransport,
    pub sharing: Sharing,
}

/// One client's own on/off list. While `enabled`, the client uses `jacks` in
/// place of the global list.
#[derive(Debug, PartialEq, Eq)]
pub struct ClientOverride {
    pub enabled: bool,
    pub jacks: NameMap<bool>,
}

/// A client that has connected at least once. The times are RFC 3339 text.
#[derive(Debug, PartialEq, Eq)]
pub struct SeenClient {
    pub name: String,
    pub first_seen_version: Option<String>,
    pub first_seen: String,
    pub last_seen: Option<String>,
}

/// The whole configuration.
#[derive(Debug, PartialEq, Eq)]
pub struct PatchbayConfig {
    pub version: u32,
    pub port: u16,
    pub autostart: bool,
    pub ui_mode: UiMode,
    /// The MCP servers, in display order.
    pub jacks: Vec<JackConfig>,
    /// Reserved for presets; opaque.
    pub bays: NameMap<Json>,
    /// Observed rather than configured: who has connected, and when.
    pub seen_clients: Vec<SeenClient>,
    /// Keyed by the client's identity as it names itself.
    pub client_overrides: NameMap<ClientOverride>,
    pub require_approval_for_new_clients: bool,
    pub request_logging_enabled: bool,
    /// Identities that were denied.
    pub forbidden_clients: Vec<String>,
}

pub enum TransportModel {
    Stdio { command: Seq<char>, args: Seq<Seq<char>>, env: Map<Seq<char>, Seq<char>> },
    StreamableHttp { url: Seq<char>, headers: Map<Seq<char>, Seq<char>> },
}

pub struct JackModel {
    pub name: Seq<char>,
    pub patched: bool,
    pub transport: TransportModel,
    pub sharing: Sharing,
    pub tools: Option<Doc>,
}

pub struct OverrideModel {
    pub enabled: bool,
    pub jacks: Map<Seq<char>, bool>,
}

pub struct SeenModel {
    pub name: Seq<char>,
    pub first_seen_version: Option<Seq<char>>,
    pub first_seen: Seq<char>,
    pub last_seen: Option<Seq<char>>,
}

pub struct ConfigModel {
    pub version: u32,
    pub port: u16,
    pub autostart: bool,
    pub ui_mode: UiMode,
    pub jacks: Seq<JackModel>,
    pub bays: Map<Seq<char>, Doc>,
    pub seen_clients: Seq<SeenModel>,
    pub client_overrides: Map<Seq<char>, OverrideModel>,
    pub require_approval_for_new_clients: bool,
    pub request_logging_enabled: bool,
    pub forbidden_clients: Seq<Seq<char>>,
}

impl View for JackTransport {
    type V = TransportModel;

    open spec fn view(&self) -> TransportModel {
        match self {
            JackTransport::Stdio { command, args, env } => TransportModel::Stdio {
                command: command@,
                args: texts(args@),
                env: env@,
            },
            JackTransport::StreamableHttp { url, headers } => TransportModel::StreamableHttp {
                url: url@,
                headers: headers@,
            },
        }
    }
}

impl View for JackConfig {
    type V = JackModel;

    open spec fn view(&self) -> JackModel {
        JackModel {
            name: self.name@,
            patched: self.patched,
            transport: self.transport@,
            sharing: self.sharing,
            tools: view_opt(self.tools),
        }
    }
}

impl View for JackConfigInput {
    type V = JackModel;

    /// The jack that this input asks for.
    open spec fn view(&self) -> JackModel {
        JackModel {
            name: self.name@,
            patched: self.patched,
            transport: self.transport@,
            sharing: self.sharing,
            tools: None,
        }
    }
}

impl View for ClientOverride {
    type V = OverrideModel;

    open spec fn view(&self) -> OverrideModel {
        OverrideModel { enabled: self.enabled, jacks: self.jacks@ }
    }
}

impl View for SeenClient {
    type V = SeenModel;

    open spec fn view(&self) -> SeenModel {
        SeenModel {
            name: self.name@,
            first_seen_version: view_opt(self.first_seen_version),
            first_seen: self.first_seen@,
            last_seen: view_opt(self.last_seen),
        }
    }
}

impl View for PatchbayConfig {
    type V = ConfigModel;

    open spec fn view(&self) -> ConfigModel {
        ConfigModel {
            version: self.version,
            port: self.port,
            autostart: self.autostart,
            ui_mode: self.ui_mode,
            jacks: views(self.jacks@),
            bays: self.bays@,
            seen_clients: views(self.seen_clients@),
            client_overrides: self.client_overrides@,
            require_approval_for_new_clients: self.require_approval_for_new_clients,
            request_logging_enabled: self.request_logging_enabled,
            forbidden_clients: texts(self.forbidden_clients@),
        }
    }
}

impl Replica for JackTransport {
    fn replica(&self) -> (r: Self) {
        match self {
            JackTransport::Stdio { command, args, env } => JackTransport::Stdio {
                command: command.clone(),
                args: replicas(args),
                env: env.copied(),
            },
            JackTransport::StreamableHttp { url, headers } => JackTransport::StreamableHttp {
                url: url.clone(),
                headers: headers.copied(),
            },
        }
    }
}

impl Replica for JackConfig {
    fn replica(&self) -> (r: Self) {
        JackConfig {
            name: self.name.clone(),
            patched: self.patched,
            transport: self.transport.replica(),
            sharing: self.sharing,
            tools: replica_opt(&self.tools),
        }
    }
}

impl Replica for ClientOverride {
    fn replica(&self) -> (r: Self) {
        ClientOverride { enabled: self.enabled, jacks: self.jacks.copied() }
    }
}

impl Replica for SeenClient {
    fn replica(&self) -> (r: Self) {
        SeenClient {
            name: self.name.clone(),
            first_seen_version: replica_opt(&self.first_seen_version),
            first_seen: self.first_seen.clone(),
            last_seen: replica_opt(&self.last_seen),
        }
    }
}

impl Replica for PatchbayConfig {
    fn replica(&self) -> (r: Self) {
        PatchbayConfig {
            version: self.version,
            port: self.port,
            autostart: self.autostart,
            ui_mode: self.ui_mode,
            jacks: replicas(&self.jacks),
            bays: self.bays.copied(),
            seen_clients: replicas(&self.seen_clients),
            client_overrides: self.client_overrides.copied(),
            require_approval_for_new_clients: self.require_approval_for_new_clients,
            request_logging_enabled: self.request_logging_enabled,
            forbidden_clients: replicas(&self.forbidden_clients),
        }
    }
}

impl Default for UiMode {
    fn default() -> (r: Self)
        ensures
            r == UiMode::Tray,
    {
        UiMode::Tray
    }
}

impl Default for Sharing {
    fn default() -> (r: Self)
        ensures
            r == Sharing::Shared,
    {
        Sharing::Shared
    }
}

impl UiMode {
    /// The mode that a token names: white space around it and the case of its
    /// letters do not count, and any other text names [`UiMode::Tray`].
    pub open spec fn named(s: Seq<char>) -> UiMode {
        let token = lowered(trimmed(s));
        if token == "window"@ {
            UiMode::Window
        } else if token == "both"@ {
            UiMode::Both
        } else {
            UiMode::Tray
        }
    }

    /// The token of a mode, as it stands in the configuration file.
    pub open spec fn token(self) -> Seq<char> {
        match self {
            UiMode::Tray => "tray"@,
            UiMode::Window => "window"@,
            UiMode::Both => "both"@,
        }
    }

    /// Parse leniently: an unknown or malformed token degrades to
    /// [`UiMode::Tray`].
    pub fn from_str_lenient(s: &str) -> (r: Self)
        ensures
            r == UiMode::named(s@),
    {
        let token = lower_text(trim_text(s).as_str());
        if same_text(token.as_str(), "window") {
            UiMode::Window
        } else if same_text(token.as_str(), "both") {
            UiMode::Both
        } else {
            UiMode::Tray
        }
    }

    /// The line of the log for a token that names no mode.
    pub open spec fn unknown_words(s: Seq<char>) -> Option<Seq<char>> {
        let token = lowered(trimmed(s));
        if token == "tray"@ || token == "window"@ || token == "both"@ {
            None
        } else {
            Some("config: unknown ui_mode '"@ + token + "', falling back to 'tray'"@)
        }
    }

    /// The line of the log for a token that names no mode; none for one that does.
    pub fn unknown_line(s: &str) -> (r: Option<String>)
        ensures
            view_opt(r) == UiMode::unknown_words(s@),
    {
        let token = lower_text(trim_text(s).as_str());
        if same_text(token.as_str(), "tray") || same_text(token.as_str(), "window") || same_text(
            token.as_str(),
            "both",
        ) {
            return None;
        }
        let mut line = "config: unknown ui_mode '".to_owned();
        line.append(token.as_str());
        line.append("', falling back to 'tray'");
        Some(line)
    }

    /// The line of the log for a value of the configuration key that stands for no
    /// mode; none for one that does.
    pub fn unknown_json_line(v: &Json) -> (r: Option<String>)
        ensures
            view_opt(r) == (match v@.text() {
                Some(s) => UiMode::unknown_words(s),
                None => Some(
                    "config: ui_mode is not a string ("@ + json_written(v@) + "), falling back to 'tray'"@,
                ),
            }),
    {
        match v.as_text() {
            Some(s) => UiMode::unknown_line(s.as_str()),
            None => {
                let mut line = "config: ui_mode is not a string (".to_owned();
                line.append(write_json(v).as_str());
                line.append("), falling back to 'tray'");
                Some(line)
            },
        }
    }

    /// The mode that the value of the configuration key stands for. A value of
    /// the wrong type degrades to [`UiMode::Tray`] as an unknown token does.
    pub fn from_json(v: &Json) -> (r: Self)
        ensures
            r == (match v@.text() {
                Some(s) => UiMode::named(s),
                None => UiMode::Tray,
            }),
    {
        match v.as_text() {
            Some(s) => UiMode::from_str_lenient(s.as_str()),
            None => UiMode::Tray,
        }
    }

    /// The token of this mode, as it stands in the configuration file.
    pub fn as_str(&self) -> (r: &'static str)
        ensures
            r@ == self.token(),
    {
        match self {
            UiMode::Tray => "tray",
            UiMode::Window => "window",
            UiMode::Both => "both",
        }
    }

    /// Does a left click open the popover window?
    pub fn window_on_left_click(&self) -> (r: bool)
        ensures
            r == (*self is Window || *self is Both),
    {
        match self {
            UiMode::Window | UiMode::Both => true,
            UiMode::Tray => false,
        }
    }

    /// Does a right click get the full menu, in place of the minimal one?
    pub fn full_menu(&self) -> (r: bool)
        ensures
            r == (*self is Tray || *self is Both),
    {
        match self {
            UiMode::Tray | UiMode::Both => true,
            UiMode::Window => false,
        }
    }
}

/// What a mode writes, it reads back.
pub proof fn ui_mode_token_reads_back(m: UiMode)
    ensures
        UiMode::named(m.token()) == m,
{
    reveal_strlit("tray");
    reveal_strlit("window");
    reveal_strlit("both");
    let t = m.token();
    assert(trimmed(t) == t);
    assert(lowered(t) =~= t);
    assert("tray"@.len() == 4 && "both"@.len() == 4 && "window"@.len() == 6);
    assert("tray"@[0] == 't' && "both"@[0] == 'b');
}

impl JackTransport {
    /// The environment of a stdio jack, for change; a remote jack has none.
    pub fn env_mut(&mut self) -> (r: Option<&mut NameMap<String>>)
        ensures
            r is Some <==> *old(self) is Stdio,
            r matches Some(m) ==> *m == old(self)->env && *final(self) == (JackTransport::Stdio {
                command: old(self)->command,
                args: old(self)->args,
                env: *final(m),
            }),
            r is None ==> *final(self) == *old(self),
    {
        match self {
            JackTransport::Stdio { env, .. } => Some(env),
            _ => None,
        }
    }

    /// The headers of a remote jack, for change; a stdio jack has none.
    pub fn headers_mut(&mut self) -> (r: Option<&mut NameMap<String>>)
        ensures
            r is Some <==> *old(self) is StreamableHttp,
            r matches Some(m) ==> *m == old(self)->headers && *final(self) == (
            JackTransport::StreamableHttp { url: old(self)->url, headers: *final(m) }),
            r is None ==> *final(self) == *old(self),
    {
        match self {
            JackTransport::StreamableHttp { headers, .. } => Some(headers),
            _ => None,
        }
    }
}

/// A mode is read from its word whatever the case of its letters and the spaces around
/// it, and any other word is read as the tray.
pub proof fn modes_are_read_leniently(s: Seq<char>)
    ensures
        UiMode::named(s) == UiMode::Window <==> lowered(trimmed(s)) == "window"@,
        UiMode::named(s) == UiMode::Both <==> lowered(trimmed(s)) == "both"@,
        UiMode::unknown_words(s) is None <==> (lowered(trimmed(s)) == "tray"@ || UiMode::named(s) != UiMode::Tray),
{
    reveal_strlit("window");
    reveal_strlit("both");
    reveal_strlit("tray");
    assert("window"@.len() != "both"@.len());
}

} // verus!
