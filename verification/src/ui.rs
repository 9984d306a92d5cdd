//! What the window shows: one snapshot of everything that is visible. No secret
//! is in it, and nothing of a jack's transport but its kind.

use vstd::prelude::*;
#[allow(unused_imports)]
use vstd::string::*;

use crate::app_state::jacks::{transport_word, JackSummary, SummaryModel};
use crate::app_state::state::{AppModel, AppState, GatewayModel, GatewayStatus};
use crate::config::grants::{first_named, jack_names, lemma_first_named, lemma_is_first_named, list_has};
use crate::config::schema::{ConfigModel, JackModel, SeenClient, SeenModel};
use crate::gateway::registry::{live_sessions, LiveModel, LiveSession};
use crate::name_map::{in_order, replica_opt, view_opt, views};
use crate::numerals::{decimal, decimal_text};
use crate::text::{contains_text, holds, lower_text, lowered, occurs_at, same_text, strip_prefix_text, texts};

verus! {

/// Everything that the window shows.
#[derive(Debug, PartialEq, Eq)]
pub struct UiSnapshot {
    pub gateway: UiGateway,
    pub jacks: Vec<UiJack>,
    pub agents: Vec<UiAgent>,
    pub settings: UiSettings,
}

#[derive(Debug, PartialEq, Eq)]
pub struct UiGateway {
    /// `starting`, `running`, `failed` or `stopped`.
    pub status: String,
    /// There only where the status is `failed`.
    pub error: Option<String>,
    pub port: u16,
    pub url: String,
    /// The number of live sessions.
    pub session_count: usize,
    pub config_error: Option<String>,
}

#[derive(Debug, PartialEq, Eq)]
pub struct UiJack {
    pub name: String,
    pub patched: bool,
    /// `stdio` or `streamable_http`.
    pub transport: String,
    pub status: String,
    /// The reason of a failure, taken out of the status.
    pub error: Option<String>,
    /// None, and not zero, where the jack does not run.
    pub tool_count: Option<usize>,
    /// Whether switching the jack on is worth a second question.
    pub sensitive: bool,
}

/// How a client stands to a list of its own.
#[derive(Clone, Copy, Debug, PartialEq, Eq, Structural)]
pub enum UiCustomState {
    /// It has none.
    Absent,
    /// It has one that is put aside, and would come back.
    PreservedDisabled,
    /// It uses one.
    Enabled,
}

#[derive(Debug, PartialEq, Eq)]
pub struct UiAgent {
    pub name: String,
    pub version: Option<String>,
    pub first_seen: Option<String>,
    pub last_seen: Option<String>,
    /// Whether it has a live session.
    pub connected: bool,
    /// Seconds since it was last active, where it is connected.
    pub idle_secs: Option<u64>,
    pub custom_state: UiCustomState,
    /// What its own list says, or would say, of each jack.
    pub overrides: Vec<UiAgentJack>,
    pub denied: bool,
}

#[derive(Debug, PartialEq, Eq)]
pub struct UiAgentJack {
    pub jack: String,
    pub on: bool,
}

#[derive(Debug, PartialEq, Eq)]
pub struct UiSettings {
    /// `tray`, `window` or `both`.
    pub ui_mode: String,
    pub autostart: bool,
    pub require_approval: bool,
    pub request_logging: bool,
    pub port: u16,
    pub version: String,
}

pub struct UiGatewayModel {
    pub status: Seq<char>,
    pub error: Option<Seq<char>>,
    pub port: u16,
    pub url: Seq<char>,
    pub session_count: nat,
    pub config_error: Option<Seq<char>>,
}

pub struct UiJackModel {
    pub name: Seq<char>,
    pub patched: bool,
    pub transport: Seq<char>,
    pub status: Seq<char>,
    pub error: Option<Seq<char>>,
    pub tool_count: Option<nat>,
    pub sensitive: bool,
}

pub struct UiAgentJackModel {
    pub jack: Seq<char>,
    pub on: bool,
}

pub struct UiAgentModel {
    pub name: Seq<char>,
    pub version: Option<Seq<char>>,
    pub first_seen: Option<Seq<char>>,
    pub last_seen: Option<Seq<char>>,
    pub connected: bool,
    pub idle_secs: Option<u64>,
    pub custom_state: UiCustomState,
    pub overrides: Seq<UiAgentJackModel>,
    pub denied: bool,
}

pub struct UiSettingsModel {
    pub ui_mode: Seq<char>,
    pub autostart: bool,
    pub require_approval: bool,
    pub request_logging: bool,
    pub port: u16,
    pub version: Seq<char>,
}

pub struct SnapshotModel {
    pub gateway: UiGatewayModel,
    pub jacks: Seq<UiJackModel>,
    pub agents: Seq<UiAgentModel>,
    pub settings: UiSettingsModel,
}

impl View for UiGateway {
    type V = UiGatewayModel;

    open spec fn view(&self) -> UiGatewayModel {
        UiGatewayModel {
            status: self.status@,
            error: view_opt(self.error),
            port: self.port,
            url: self.url@,
            session_count: self.session_count as nat,
            config_error: view_opt(self.config_error),
        }
    }
}

impl View for UiJack {
    type V = UiJackModel;

    open spec fn view(&self) -> UiJackModel {
        UiJackModel {
            name: self.name@,
            patched: self.patched,
            transport: self.transport@,
            status: self.status@,
            error: view_opt(self.error),
            tool_count: match self.tool_count {
                Some(n) => Some(n as nat),
                None => None,
            },
            sensitive: self.sensitive,
        }
    }
}

impl View for UiAgentJack {
    type V = UiAgentJackModel;

    open spec fn view(&self) -> UiAgentJackModel {
        UiAgentJackModel { jack: self.jack@, on: self.on }
    }
}

impl View for UiAgent {
    type V = UiAgentModel;

    open spec fn view(&self) -> UiAgentModel {
        UiAgentModel {
            name: self.name@,
            version: view_opt(self.version),
            first_seen: view_opt(self.first_seen),
            last_seen: view_opt(self.last_seen),
            connected: self.connected,
            idle_secs: self.idle_secs,
            custom_state: self.custom_state,
            overrides: views(self.overrides@),
            denied: self.denied,
        }
    }
}

impl View for UiSettings {
    type V = UiSettingsModel;

    open spec fn view(&self) -> UiSettingsModel {
        UiSettingsModel {
            ui_mode: self.ui_mode@,
            autostart: self.autostart,
            require_approval: self.require_approval,
            request_logging: self.request_logging,
            port: self.port,
            version: self.version@,
        }
    }
}

impl View for UiSnapshot {
    type V = SnapshotModel;

    open spec fn view(&self) -> SnapshotModel {
        SnapshotModel {
            gateway: self.gateway@,
            jacks: views(self.jacks@),
            agents: views(self.agents@),
            settings: self.settings@,
        }
    }
}

/// Whether switching a jack on is worth a second question, by its name.
pub open spec fn sensitive_name(name: Seq<char>) -> bool {
    holds(lowered(name), "prod"@)
}

/// Whether switching a jack on is worth a second question.
pub fn is_sensitive_jack_name(name: &str) -> (r: bool)
    ensures
        r == sensitive_name(name@),
{
    contains_text(lower_text(name).as_str(), "prod")
}

/// The words for a status, with the reason of a failure apart.
pub open spec fn status_parts(status: Seq<char>) -> (Seq<char>, Option<Seq<char>>) {
    if occurs_at(status, "failed: "@, 0) {
        ("failed"@, Some(status.subrange("failed: "@.len() as int, status.len() as int)))
    } else {
        (status, None)
    }
}

/// The words for a status, with the reason of a failure apart.
pub fn split_status(status: &str) -> (r: (String, Option<String>))
    ensures
        (r.0@, view_opt(r.1)) == status_parts(status@),
{
    match strip_prefix_text(status, "failed: ") {
        Some(reason) => {
            assert(status@.subrange("failed: "@.len() as int, status@.len() as int) =~= reason@);
            ("failed".to_owned(), Some(reason))
        },
        None => (status.to_owned(), None),
    }
}

/// The address of the gateway.
pub open spec fn gateway_address(port: u16) -> Seq<char> {
    "http://127.0.0.1:"@ + decimal(port as nat) + "/mcp"@
}

/// The address of the gateway.
pub fn gateway_url(port: u16) -> (r: String)
    ensures
        r@ == gateway_address(port),
{
    let mut s = "http://127.0.0.1:".to_owned();
    s.append(decimal_text(port as u64).as_str());
    s.append("/mcp");
    s
}

/// The gateway as it is shown.
pub open spec fn gateway_shown(m: AppModel, sessions: nat) -> UiGatewayModel {
    let (status, error, port) = match m.status {
        GatewayModel::Starting => ("starting"@, None, m.config.port),
        GatewayModel::Running { port } => ("running"@, None, port),
        GatewayModel::Failed { reason } => ("failed"@, Some(reason), m.config.port),
        GatewayModel::Stopped => ("stopped"@, None, m.config.port),
    };
    UiGatewayModel {
        status,
        error,
        port,
        url: gateway_address(port),
        session_count: sessions,
        config_error: m.config_error,
    }
}

/// A jack as it is shown.
pub open spec fn jack_shown(s: SummaryModel) -> UiJackModel {
    let (status, error) = status_parts(s.status);
    UiJackModel {
        name: s.name,
        patched: s.patched,
        transport: s.transport,
        status,
        error,
        tool_count: if status == "running"@ {
            Some(s.tool_count)
        } else {
            None
        },
        sensitive: sensitive_name(s.name),
    }
}

/// The least idle time among the live sessions of a client.
pub open spec fn idle_of(live: Seq<LiveModel>, name: Seq<char>) -> Option<u64>
    decreases live.len(),
{
    if live.len() == 0 {
        None
    } else {
        let front = idle_of(live.drop_last(), name);
        let last = live.last();
        if last.client_name == Some(name) {
            match front {
                Some(n) => Some(if last.idle_secs < n { last.idle_secs } else { n }),
                None => Some(last.idle_secs),
            }
        } else {
            front
        }
    }
}

fn find_idle(live: &Vec<LiveSession>, name: &str) -> (r: Option<u64>)
    ensures
        r == idle_of(views(live@), name@),
{
    let ghost all = views(live@);
    let mut best: Option<u64> = None;
    assert(all.subrange(0, 0) =~= Seq::<LiveModel>::empty());
    let mut i: usize = 0;
    while i < live.len()
        invariant
            i <= live.len(),
            all == views(live@),
            best == idle_of(all.subrange(0, i as int), name@),
        decreases live.len() - i,
    {
        let ghost step = all.subrange(0, i + 1);
        assert(step.drop_last() =~= all.subrange(0, i as int));
        assert(step.last() == live@[i as int]@);
        let hit = match &live[i].client_name {
            Some(n) => same_text(n.as_str(), name),
            None => false,
        };
        if hit {
            let secs: u64 = live[i].idle_secs;
            best = match best {
                Some(n) => Some(
                    if secs < n {
                        secs
                    } else {
                        n
                    },
                ),
                None => Some(secs),
            };
        }
        i = i + 1;
    }
    assert(all.subrange(0, all.len() as int) =~= all);
    best
}

/// How a client stands to a list of its own.
pub open spec fn custom_state_of(c: ConfigModel, client: Seq<char>) -> UiCustomState {
    if !c.client_overrides.contains_key(client) {
        UiCustomState::Absent
    } else if c.client_overrides[client].enabled {
        UiCustomState::Enabled
    } else {
        UiCustomState::PreservedDisabled
    }
}

/// What a client's own list says of a jack, or would say if it were used: what is
/// stored where it has a list, and off where that list does not name the jack; and
/// else what the global list says.
pub open spec fn own_value(c: ConfigModel, client: Seq<char>, jack: Seq<char>) -> bool {
    if c.client_overrides.contains_key(client) {
        c.client_overrides[client].jacks.get(jack) == Some(true)
    } else {
        c.global_patched(jack)
    }
}

/// A client that was seen, as it is shown.
pub open spec fn agent_shown(c: ConfigModel, live: Seq<LiveModel>, s: SeenModel) -> UiAgentModel {
    UiAgentModel {
        name: s.name,
        version: s.first_seen_version,
        first_seen: if s.first_seen.len() == 0 {
            None
        } else {
            Some(s.first_seen)
        },
        last_seen: s.last_seen,
        connected: idle_of(live, s.name) is Some,
        idle_secs: idle_of(live, s.name),
        custom_state: custom_state_of(c, s.name),
        overrides: jack_names(c.jacks).map_values(
            |jack: Seq<char>| UiAgentJackModel { jack, on: own_value(c, s.name, jack) },
        ),
        denied: c.forbidden_clients.contains(s.name),
    }
}

/// A denied client that was never seen, as it is shown: without any history.
pub open spec fn stranger_shown(name: Seq<char>) -> UiAgentModel {
    UiAgentModel {
        name,
        version: None,
        first_seen: None,
        last_seen: None,
        connected: false,
        idle_secs: None,
        custom_state: UiCustomState::Absent,
        overrides: Seq::empty(),
        denied: true,
    }
}

/// Whether a client is among those shown.
pub open spec fn is_shown(agents: Seq<UiAgentModel>, name: Seq<char>) -> bool {
    exists|i: int| 0 <= i < agents.len() && (#[trigger] agents[i]).name == name
}

/// The clients shown, with each of `denied` that is not among them yet.
pub open spec fn with_strangers(agents: Seq<UiAgentModel>, denied: Seq<Seq<char>>) -> Seq<UiAgentModel>
    decreases denied.len(),
{
    if denied.len() == 0 {
        agents
    } else {
        let front = with_strangers(agents, denied.drop_last());
        if is_shown(front, denied.last()) {
            front
        } else {
            front.push(stranger_shown(denied.last()))
        }
    }
}

/// All clients as they are shown: those that were seen, then those that were denied
/// without ever being seen.
pub open spec fn agents_shown(c: ConfigModel, live: Seq<LiveModel>) -> Seq<UiAgentModel> {
    with_strangers(c.seen_clients.map_values(|s: SeenModel| agent_shown(c, live, s)), c.forbidden_clients)
}

/// Everything that the window shows at `now`.
pub open spec fn snapshot_of(m: AppModel, version: Seq<char>, now: u64) -> SnapshotModel {
    let live = live_sessions(m.sessions, in_order(m.sessions.dom()), now);
    SnapshotModel {
        gateway: gateway_shown(m, live.len()),
        jacks: m.config.jacks.map_values(|j: JackModel| jack_shown(m.summary(j))),
        agents: agents_shown(m.config, live),
        settings: UiSettingsModel {
            ui_mode: m.config.ui_mode.token(),
            autostart: m.config.autostart,
            require_approval: m.config.require_approval_for_new_clients,
            request_logging: m.config.request_logging_enabled,
            port: m.config.port,
            version,
        },
    }
}

fn show_gateway(state: &AppState, session_count: usize) -> (r: UiGateway)
    ensures
        r@ == gateway_shown(state@, session_count as nat),
{
    let (status, error, port): (String, Option<String>, u16) = match &state.status {
        GatewayStatus::Starting => ("starting".to_owned(), None, state.config.port),
        GatewayStatus::Running { port } => ("running".to_owned(), None, *port),
        GatewayStatus::Failed { reason } => ("failed".to_owned(), Some(reason.clone()), state.config.port),
        GatewayStatus::Stopped => ("stopped".to_owned(), None, state.config.port),
    };
    UiGateway {
        status,
        error,
        port,
        url: gateway_url(port),
        session_count,
        config_error: replica_opt(&state.config_error),
    }
}

fn show_jack(j: &JackSummary) -> (r: UiJack)
    ensures
        r@ == jack_shown(j@),
{
    let (status, error) = split_status(j.status.as_str());
    let running = same_text(status.as_str(), "running");
    UiJack {
        name: j.name.clone(),
        patched: j.patched,
        transport: j.transport.clone(),
        tool_count: if running {
            Some(j.tool_count)
        } else {
            None
        },
        status,
        error,
        sensitive: is_sensitive_jack_name(j.name.as_str()),
    }
}

fn show_jacks(state: &AppState) -> (r: Vec<UiJack>)
    ensures
        views(r@) == state@.config.jacks.map_values(|j: JackModel| jack_shown(state@.summary(j))),
{
    let jacks = state.list_jacks();
    let ghost m = state@;
    let ghost goal = m.config.jacks.map_values(|j: JackModel| jack_shown(m.summary(j)));
    let mut out: Vec<UiJack> = Vec::new();
    assert(views(out@) =~= goal.subrange(0, 0));
    assert(views(jacks@).len() == jacks@.len());
    let mut i: usize = 0;
    while i < jacks.len()
        invariant
            i <= jacks.len(),
            m.config.jacks.len() == jacks@.len(),
            views(jacks@) == m.config.jacks.map_values(|j: JackModel| m.summary(j)),
            goal == m.config.jacks.map_values(|j: JackModel| jack_shown(m.summary(j))),
            views(out@) == goal.subrange(0, i as int),
        decreases jacks.len() - i,
    {
        let ghost prev = views(out@);
        assert(views(jacks@)[i as int] == jacks@[i as int]@);
        let one = show_jack(&jacks[i]);
        out.push(one);
        assert(views(out@) =~= prev.push(goal[i as int]));
        i = i + 1;
        assert(views(out@) =~= goal.subrange(0, i as int));
    }
    assert(views(out@) =~= goal);
    out
}

fn show_agent(state: &AppState, live: &Vec<LiveSession>, s: &SeenClient) -> (r: UiAgent)
    ensures
        r@ == agent_shown(state@.config, views(live@), s@),
{
    let cfg = &state.config;
    let name = s.name.as_str();
    let custom_state = match cfg.client_overrides.get(name) {
        None => UiCustomState::Absent,
        Some(o) => if o.enabled {
            UiCustomState::Enabled
        } else {
            UiCustomState::PreservedDisabled
        },
    };
    let jacks = cfg.jack_names();
    let ghost c = state@.config;
    let ghost goal = jack_names(c.jacks).map_values(
        |jack: Seq<char>| UiAgentJackModel { jack, on: own_value(c, name@, jack) },
    );
    let mut overrides: Vec<UiAgentJack> = Vec::new();
    assert(views(overrides@) =~= goal.subrange(0, 0));
    let mut i: usize = 0;
    while i < jacks.len()
        invariant
            i <= jacks.len(),
            texts(jacks@) == jack_names(c.jacks),
            c == cfg@,
            goal == jack_names(c.jacks).map_values(
                |jack: Seq<char>| UiAgentJackModel { jack, on: own_value(c, name@, jack) },
            ),
            views(overrides@) == goal.subrange(0, i as int),
        decreases jacks.len() - i,
    {
        let ghost prev = views(overrides@);
        assert(texts(jacks@)[i as int] == jacks@[i as int]@);
        let jack = jacks[i].as_str();
        let on = match cfg.client_overrides.get(name) {
            Some(o) => match o.jacks.get(jack) {
                Some(b) => *b,
                None => false,
            },
            None => cfg.global_patched(jack),
        };
        overrides.push(UiAgentJack { jack: jacks[i].clone(), on });
        assert(views(overrides@) =~= prev.push(goal[i as int]));
        i = i + 1;
        assert(views(overrides@) =~= goal.subrange(0, i as int));
    }
    assert(views(overrides@) =~= goal);
    let idle: Option<u64> = find_idle(live, name);
    UiAgent {
        name: s.name.clone(),
        version: replica_opt(&s.first_seen_version),
        first_seen: if s.first_seen.as_str().is_empty() {
            None
        } else {
            Some(s.first_seen.clone())
        },
        last_seen: replica_opt(&s.last_seen),
        connected: idle.is_some(),
        idle_secs: idle,
        custom_state,
        overrides,
        denied: list_has(&cfg.forbidden_clients, name),
    }
}

fn has_agent(agents: &Vec<UiAgent>, name: &str) -> (r: bool)
    ensures
        r == is_shown(views(agents@), name@),
{
    let mut i: usize = 0;
    while i < agents.len()
        invariant
            i <= agents.len(),
            forall|k: int| 0 <= k < i ==> (#[trigger] views(agents@)[k]).name != name@,
        decreases agents.len() - i,
    {
        assert(views(agents@)[i as int] == agents@[i as int]@);
        if same_text(agents[i].name.as_str(), name) {
            assert(views(agents@)[i as int].name == name@);
            return true;
        }
        i = i + 1;
    }
    false
}

fn show_agents(state: &AppState, live: &Vec<LiveSession>) -> (r: Vec<UiAgent>)
    ensures
        views(r@) == agents_shown(state@.config, views(live@)),
{
    let ghost c = state@.config;
    let ghost lv = views(live@);
    let ghost seen = c.seen_clients.map_values(|s: SeenModel| agent_shown(c, lv, s));
    let mut out: Vec<UiAgent> = Vec::new();
    assert(views(out@) =~= seen.subrange(0, 0));
    let mut i: usize = 0;
    while i < state.config.seen_clients.len()
        invariant
            i <= state.config.seen_clients.len(),
            c == state@.config,
            lv == views(live@),
            seen == c.seen_clients.map_values(|s: SeenModel| agent_shown(c, lv, s)),
            views(out@) == seen.subrange(0, i as int),
        decreases state.config.seen_clients.len() - i,
    {
        let ghost prev = views(out@);
        assert(c.seen_clients[i as int] == state.config.seen_clients@[i as int]@);
        let one = show_agent(state, live, &state.config.seen_clients[i]);
        out.push(one);
        assert(views(out@) =~= prev.push(seen[i as int]));
        i = i + 1;
        assert(views(out@) =~= seen.subrange(0, i as int));
    }
    assert(views(out@) =~= seen);
    let ghost denied = texts(state.config.forbidden_clients@);
    assert(denied.subrange(0, 0) =~= Seq::<Seq<char>>::empty());
    let mut j: usize = 0;
    while j < state.config.forbidden_clients.len()
        invariant
            j <= state.config.forbidden_clients.len(),
            denied == texts(state.config.forbidden_clients@),
            views(out@) == with_strangers(seen, denied.subrange(0, j as int)),
        decreases state.config.forbidden_clients.len() - j,
    {
        let ghost prev = views(out@);
        let ghost step = denied.subrange(0, j + 1);
        assert(step.drop_last() =~= denied.subrange(0, j as int));
        assert(step.last() == state.config.forbidden_clients@[j as int]@);
        let name = state.config.forbidden_clients[j].as_str();
        if !has_agent(&out, name) {
            let none: Vec<UiAgentJack> = Vec::new();
            assert(views(none@) =~= Seq::<UiAgentJackModel>::empty());
            let one = UiAgent {
                name: name.to_owned(),
                version: None,
                first_seen: None,
                last_seen: None,
                connected: false,
                idle_secs: None,
                custom_state: UiCustomState::Absent,
                overrides: none,
                denied: true,
            };
            out.push(one);
            assert(views(out@) =~= prev.push(stranger_shown(name@)));
        }
        j = j + 1;
    }
    assert(denied.subrange(0, denied.len() as int) =~= denied);
    out
}

/// Everything that the window shows at `now`.
pub fn build_snapshot(state: &AppState, version: &str, now: u64) -> (r: UiSnapshot)
    ensures
        r@ == snapshot_of(state@, version@, now),
{
    let live = state.sessions.snapshot(now);
    assert(views(live@).len() == live@.len());
    let gateway = show_gateway(state, live.len());
    let jacks = show_jacks(state);
    let agents = show_agents(state, &live);
    let cfg = &state.config;
    let settings = UiSettings {
        ui_mode: cfg.ui_mode.as_str().to_owned(),
        autostart: cfg.autostart,
        require_approval: cfg.require_approval_for_new_clients,
        request_logging: cfg.request_logging_enabled,
        port: cfg.port,
        version: version.to_owned(),
    };
    UiSnapshot { gateway, jacks, agents, settings }
}

// ---- what holds of it ----------------------------------------------------

/// Two configurations that differ in nothing but what is inside the transports of
/// their jacks: commands, arguments, addresses, environments and headers.
pub open spec fn same_but_transports(a: ConfigModel, b: ConfigModel) -> bool {
    &&& a == (ConfigModel { jacks: a.jacks, ..b })
    &&& a.jacks.len() == b.jacks.len()
    &&& forall|i: int| #![trigger a.jacks[i]] #![trigger b.jacks[i]]
        0 <= i < a.jacks.len() ==> {
            &&& a.jacks[i].name == b.jacks[i].name
            &&& a.jacks[i].patched == b.jacks[i].patched
            &&& transport_word(a.jacks[i].transport) == transport_word(b.jacks[i].transport)
        }
}

proof fn lemma_same_first(a: ConfigModel, b: ConfigModel, name: Seq<char>)
    requires
        same_but_transports(a, b),
    ensures
        first_named(a.jacks, name) == first_named(b.jacks, name),
        a.global_patched(name) == b.global_patched(name),
{
    lemma_first_named(a.jacks, name);
    lemma_first_named(b.jacks, name);
    let f = first_named(a.jacks, name);
    assert forall|k: int| 0 <= k < f implies (#[trigger] b.jacks[k]).name != name by {
        assert(a.jacks[k].name != name);
    }
    if f < a.jacks.len() {
        assert(b.jacks[f].name == name);
    }
    lemma_is_first_named(b.jacks, name, f);
}

/// Nothing that is inside a jack's transport can be told from a snapshot: no
/// command, no address, no environment and no header, protected or not.
pub proof fn snapshot_tells_no_secrets(m: AppModel, other: ConfigModel, version: Seq<char>, now: u64)
    requires
        same_but_transports(m.config, other),
    ensures
        snapshot_of(m, version, now) == snapshot_of(m.with_config(other), version, now),
{
    let n = m.with_config(other);
    let live = live_sessions(m.sessions, in_order(m.sessions.dom()), now);
    let c = m.config;
    assert(jack_names(c.jacks) =~= jack_names(other.jacks));
    assert(c.jacks.map_values(|j: JackModel| jack_shown(m.summary(j))) =~= other.jacks.map_values(
        |j: JackModel| jack_shown(n.summary(j)),
    )) by {
        assert forall|i: int| 0 <= i < c.jacks.len() implies jack_shown(m.summary(#[trigger] c.jacks[i]))
            == jack_shown(n.summary(other.jacks[i])) by {
            assert(m.tool_count(c.jacks[i].name) == n.tool_count(other.jacks[i].name));
        }
    }
    assert forall|s: SeenModel| agent_shown(c, live, s) == #[trigger] agent_shown(other, live, s) by {
        assert forall|jack: Seq<char>| own_value(c, s.name, jack) == #[trigger] own_value(other, s.name, jack) by {
            lemma_same_first(c, other, jack);
        }
        assert(agent_shown(c, live, s).overrides =~= agent_shown(other, live, s).overrides);
    }
    assert(c.seen_clients.map_values(|s: SeenModel| agent_shown(c, live, s)) =~= other.seen_clients.map_values(
        |s: SeenModel| agent_shown(other, live, s),
    ));
}

/// Every denied client is shown, and shown as denied, so that the user can always
/// take a denial back.
pub proof fn denied_clients_are_shown(c: ConfigModel, live: Seq<LiveModel>, name: Seq<char>)
    requires
        c.forbids(Some(name)),
    ensures
        exists|i: int|
            0 <= i < agents_shown(c, live).len() && (#[trigger] agents_shown(c, live)[i]).name == name
                && agents_shown(c, live)[i].denied,
{
    let seen = c.seen_clients.map_values(|s: SeenModel| agent_shown(c, live, s));
    assert forall|i: int| 0 <= i < seen.len() implies (#[trigger] seen[i]).denied == c.forbidden_clients.contains(
        seen[i].name,
    ) by {}
    lemma_strangers(seen, c.forbidden_clients, c.forbidden_clients, name);
    let out = with_strangers(seen, c.forbidden_clients);
    assert(agents_shown(c, live) == out);
    let i = choose|i: int| 0 <= i < out.len() && (#[trigger] out[i]).name == name && out[i].denied;
    assert(agents_shown(c, live)[i] == out[i]);
}

proof fn lemma_strangers(
    agents: Seq<UiAgentModel>,
    denied: Seq<Seq<char>>,
    all: Seq<Seq<char>>,
    name: Seq<char>,
)
    requires
        forall|i: int|
            0 <= i < agents.len() ==> (#[trigger] agents[i]).denied == all.contains(agents[i].name),
        forall|i: int| 0 <= i < denied.len() ==> all.contains(#[trigger] denied[i]),
    ensures
        forall|i: int|
            0 <= i < with_strangers(agents, denied).len() ==> (#[trigger] with_strangers(agents, denied)[i]).denied
                == all.contains(with_strangers(agents, denied)[i].name),
        denied.contains(name) ==> exists|i: int|
            0 <= i < with_strangers(agents, denied).len() && (#[trigger] with_strangers(agents, denied)[i]).name
                == name && with_strangers(agents, denied)[i].denied,
    decreases denied.len(),
{
    if denied.len() > 0 {
        let less = denied.drop_last();
        let last = denied.last();
        let front = with_strangers(agents, less);
        let out = with_strangers(agents, denied);
        assert forall|i: int| 0 <= i < less.len() implies all.contains(#[trigger] less[i]) by {
            assert(less[i] == denied[i]);
        }
        assert(all.contains(denied[denied.len() - 1]));
        lemma_strangers(agents, less, all, name);
        assert forall|i: int| 0 <= i < out.len() implies (#[trigger] out[i]).denied == all.contains(out[i].name) by {
            if i < front.len() {
                assert(out[i] == front[i]);
            }
        }
        if denied.contains(name) {
            let k = choose|k: int| 0 <= k < denied.len() && denied[k] == name;
            if k < less.len() {
                assert(less[k] == name);
                assert(less.contains(name));
                let i = choose|i: int| 0 <= i < front.len() && (#[trigger] front[i]).name == name && front[i].denied;
                assert(out[i] == front[i]);
            } else if is_shown(front, last) {
                let i = choose|i: int| 0 <= i < front.len() && (#[trigger] front[i]).name == last;
                assert(out[i].name == name && out[i].denied);
            } else {
                assert(out[front.len() as int].name == name && out[front.len() as int].denied);
            }
        }
    }
}

/// A jack that does not run shows no number of tools.
pub proof fn only_running_jacks_count_tools(s: SummaryModel)
    ensures
        jack_shown(s).tool_count is Some <==> jack_shown(s).status == "running"@,
{
}

/// Every jack is shown in its place, with its switch; one that failed with its reason,
/// and only one that runs with the number of its tools.
pub proof fn jacks_are_shown_as_they_are(m: AppModel, version: Seq<char>, now: u64, i: int)
    requires
        m.upstream.dom().finite(),
        0 <= i < m.config.jacks.len(),
    ensures
        ({
            let all = snapshot_of(m, version, now).jacks;
            let j = m.config.jacks[i];
            let shown = all[i];
            let here = m.upstream.contains_key(j.name);
            &&& all.len() == m.config.jacks.len()
            &&& shown.name == j.name
            &&& shown.patched == j.patched
            &&& here ==> (m.upstream[j.name].status matches crate::upstream::manager::StatusModel::Failed(reason) ==> (
            shown.status == "failed"@ && shown.error == Some(reason) && shown.tool_count is None))
            &&& here && m.upstream[j.name].status is Running && crate::config::validate::valid_jack_name(j.name) ==> {
                &&& shown.status == "running"@
                &&& shown.error is None
                &&& shown.tool_count == Some(m.upstream[j.name].tool_cache.len())
            }
            &&& here && m.upstream[j.name].status is Starting ==> shown.status == "starting"@ && shown.tool_count is None
            &&& here && m.upstream[j.name].status is Stopped ==> shown.status == "stopped"@ && shown.tool_count is None
            &&& !here ==> shown.status == "unknown"@ && shown.tool_count is None
            &&& shown.sensitive == holds(lowered(j.name), "prod"@)
        }),
{
    let j = m.config.jacks[i];
    crate::app_state::laws::summaries_tell_what_is(m, j);
    let text = crate::upstream::manager::status_text(m.upstream, j.name);
    reveal_strlit("failed: ");
    reveal_strlit("failed");
    reveal_strlit("running");
    reveal_strlit("starting");
    reveal_strlit("stopped");
    reveal_strlit("unknown");
    assert("failed: "@[0] == 'f' && "failed"@[0] == 'f');
    assert("running"@[0] == 'r' && "starting"@[0] == 's' && "stopped"@[0] == 's' && "unknown"@[0] == 'u');
    if m.upstream.contains_key(j.name) {
        if let crate::upstream::manager::StatusModel::Failed(reason) = m.upstream[j.name].status {
            assert(text.subrange(0, 8) =~= "failed: "@);
            assert(text.subrange(8, text.len() as int) =~= reason);
        }
    }
    if occurs_at("running"@, "failed: "@, 0) {
        assert("running"@.len() >= 8);
    }
    if occurs_at("starting"@, "failed: "@, 0) {
        assert("starting"@.subrange(0, 8)[0] == 'f');
    }
    if occurs_at("stopped"@, "failed: "@, 0) {
        assert("stopped"@.len() >= 8);
    }
    if occurs_at("unknown"@, "failed: "@, 0) {
        assert("unknown"@.len() >= 8);
    }
    assert("starting"@ != "running"@ && "stopped"@ != "running"@ && "unknown"@ != "running"@ && "failed"@ != "running"@) by {
        assert("stopped"@[0] != "running"@[0]);
        assert("unknown"@[0] != "running"@[0]);
    }
}

/// The gateway is shown with its own status and port, why it failed where it did, and
/// what is wrong with the configuration file.
pub proof fn the_gateway_is_shown_as_it_is(m: AppModel, version: Seq<char>, now: u64)
    requires
        m.sessions.dom().finite(),
    ensures
        ({
            let g = snapshot_of(m, version, now).gateway;
            &&& g.config_error == m.config_error
            &&& m.status matches GatewayModel::Running { port } ==> g.status == "running"@ && g.port == port && g.error is None
            &&& m.status matches GatewayModel::Failed { reason } ==> g.status == "failed"@ && g.error == Some(reason)
                && g.port == m.config.port
            &&& m.status is Starting ==> g.status == "starting"@ && g.error is None
            &&& m.status is Stopped ==> g.status == "stopped"@ && g.error is None
            &&& g.url == "http://127.0.0.1:"@ + decimal(g.port as nat) + "/mcp"@
            &&& g.session_count == m.sessions.dom().filter(|id: Seq<char>| m.sessions[id].initialized).len()
        }),
{
    lemma_live_count(m.sessions, now);
}

proof fn lemma_live_count(sessions: Map<Seq<char>, crate::gateway::session::SessionModel>, now: u64)
    requires
        sessions.dom().finite(),
    ensures
        live_sessions(sessions, in_order(sessions.dom()), now).len() == sessions.dom().filter(
            |id: Seq<char>| sessions[id].initialized,
        ).len(),
{
    crate::gateway::registry::live_sessions_are_the_initialized(sessions, now);
}

/// Every client that is known is shown in its place: who it is, when it was seen,
/// whether it is denied, whether it uses a list of its own, and what that list says of
/// every jack; without a list it is the jack's own switch.
pub proof fn known_clients_are_shown_as_they_are(m: AppModel, version: Seq<char>, now: u64, i: int, k: int)
    requires
        0 <= i < m.config.seen_clients.len(),
    ensures
        ({
            let c = m.config;
            let all = snapshot_of(m, version, now).agents;
            let s = c.seen_clients[i];
            let a = all[i];
            &&& all.len() >= c.seen_clients.len()
            &&& a.name == s.name
            &&& a.version == s.first_seen_version
            &&& a.last_seen == s.last_seen
            &&& s.first_seen.len() > 0 ==> a.first_seen == Some(s.first_seen)
            &&& a.denied == c.forbidden_clients.contains(s.name)
            &&& a.connected <==> a.idle_secs is Some
            &&& a.idle_secs == idle_of(live_sessions(m.sessions, in_order(m.sessions.dom()), now), s.name)
            &&& a.custom_state is Enabled <==> c.client_overrides.contains_key(s.name) && c.client_overrides[s.name].enabled
            &&& a.custom_state is Absent <==> !c.client_overrides.contains_key(s.name)
            &&& a.overrides.len() == c.jacks.len()
            &&& 0 <= k < c.jacks.len() ==> {
                &&& a.overrides[k].jack == c.jacks[k].name
                &&& c.client_overrides.contains_key(s.name) ==> (a.overrides[k].on <==> c.client_overrides[s.name].jacks.contains_key(
                    c.jacks[k].name,
                ) && c.client_overrides[s.name].jacks[c.jacks[k].name])
                &&& !c.client_overrides.contains_key(s.name) ==> a.overrides[k].on == crate::config::laws::switched_on(
                    c,
                    c.jacks[k].name,
                )
            }
        }),
{
    let c = m.config;
    lemma_known_shown(c, live_sessions(m.sessions, in_order(m.sessions.dom()), now), i);
    if 0 <= k < c.jacks.len() {
        crate::config::laws::global_switch_is_the_first(c, c.jacks[k].name);
    }
}

proof fn lemma_known_shown(c: ConfigModel, live: Seq<LiveModel>, i: int)
    ensures
        agents_shown(c, live).len() >= c.seen_clients.len(),
        0 <= i < c.seen_clients.len() ==> agents_shown(c, live)[i] == agent_shown(c, live, c.seen_clients[i]),
        c.seen_clients.len() <= i < agents_shown(c, live).len() ==> c.forbidden_clients.contains(
            agents_shown(c, live)[i].name,
        ) && agents_shown(c, live)[i].denied,
{
    let known = c.seen_clients.map_values(|s: SeenModel| agent_shown(c, live, s));
    lemma_strangers_last(known, c.forbidden_clients);
    if 0 <= i < c.seen_clients.len() {
        assert(known[i] == agent_shown(c, live, c.seen_clients[i]));
    }
}

proof fn lemma_strangers_last(agents: Seq<UiAgentModel>, denied: Seq<Seq<char>>)
    ensures
        with_strangers(agents, denied).len() >= agents.len(),
        forall|i: int| 0 <= i < agents.len() ==> with_strangers(agents, denied)[i] == #[trigger] agents[i],
        forall|i: int|
            agents.len() <= i < with_strangers(agents, denied).len() ==> denied.contains(
                (#[trigger] with_strangers(agents, denied)[i]).name,
            ) && with_strangers(agents, denied)[i].denied && !with_strangers(agents, denied)[i].connected,
    decreases denied.len(),
{
    if denied.len() > 0 {
        let front = denied.drop_last();
        lemma_strangers_last(agents, front);
        let all = with_strangers(agents, denied);
        assert forall|i: int| agents.len() <= i < all.len() implies denied.contains((#[trigger] all[i]).name)
            && all[i].denied && !all[i].connected by {
            let before = with_strangers(agents, front);
            if i < before.len() {
                assert(all[i] == before[i]);
                let k = choose|k: int| 0 <= k < front.len() && front[k] == before[i].name;
                assert(denied[k] == before[i].name);
            } else {
                assert(denied[denied.len() - 1] == all[i].name);
            }
        }
    }
}

/// Beside the clients that are known only such are shown as are denied.
pub proof fn only_denied_strangers_are_shown(m: AppModel, version: Seq<char>, now: u64, i: int)
    requires
        m.config.seen_clients.len() <= i < snapshot_of(m, version, now).agents.len(),
    ensures
        m.config.forbidden_clients.contains(snapshot_of(m, version, now).agents[i].name),
        snapshot_of(m, version, now).agents[i].denied,
{
    lemma_known_shown(m.config, live_sessions(m.sessions, in_order(m.sessions.dom()), now), i);
}

/// A client is connected while any session of it lives, and as idle as the busiest of
/// them.
pub proof fn the_busiest_session_counts(live: Seq<LiveModel>, name: Seq<char>)
    ensures
        idle_of(live, name) is Some <==> exists|i: int|
            0 <= i < live.len() && (#[trigger] live[i]).client_name == Some(name),
        forall|i: int|
            0 <= i < live.len() && (#[trigger] live[i]).client_name == Some(name) ==> idle_of(live, name) is Some
                && idle_of(live, name)->0 <= live[i].idle_secs,
        idle_of(live, name) is Some ==> exists|i: int|
            0 <= i < live.len() && (#[trigger] live[i]).client_name == Some(name) && live[i].idle_secs == idle_of(
                live,
                name,
            )->0,
    decreases live.len(),
{
    if live.len() > 0 {
        let front = live.drop_last();
        the_busiest_session_counts(front, name);
        assert forall|i: int| 0 <= i < live.len() && (#[trigger] live[i]).client_name == Some(name) implies idle_of(
            live,
            name,
        ) is Some && idle_of(live, name)->0 <= live[i].idle_secs by {
            if i < front.len() {
                assert(front[i] == live[i]);
            }
        }
        if idle_of(live, name) is Some {
            if live.last().client_name == Some(name) && idle_of(live, name)->0 == live.last().idle_secs {
                assert(live[live.len() - 1].client_name == Some(name));
            } else {
                let i = choose|i: int|
                    0 <= i < front.len() && (#[trigger] front[i]).client_name == Some(name) && front[i].idle_secs
                        == idle_of(front, name)->0;
                assert(live[i] == front[i]);
            }
        }
    }
}

/// The settings are shown as they are.
pub proof fn settings_are_shown_as_they_are(m: AppModel, version: Seq<char>, now: u64)
    ensures
        ({
            let s = snapshot_of(m, version, now).settings;
            &&& crate::config::schema::UiMode::named(s.ui_mode) == m.config.ui_mode
            &&& s.autostart == m.config.autostart
            &&& s.require_approval == m.config.require_approval_for_new_clients
            &&& s.request_logging == m.config.request_logging_enabled
            &&& s.port == m.config.port
            &&& s.version == version
        }),
{
    crate::config::schema::ui_mode_token_reads_back(m.config.ui_mode);
}

} // verus!
