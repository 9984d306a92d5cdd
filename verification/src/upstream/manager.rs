//! The life of each jack: starting, supervising and stopping its client, and
//! what it offers meanwhile. A client is known by a handle that no other client
//! shares.

use vstd::prelude::*;
#[allow(unused_imports)]
use vstd::string::*;

use crate::config::schema::{JackConfig, JackTransport, PatchbayConfig, TransportModel};
use crate::config::laws::{jacks_run_for_somebody, switched_on, wanted_by};
use crate::config::validate::{debug_text, is_valid_jack_name, quoted, valid_jack_name};
use crate::json::{Doc, Json};
use crate::name_map::{in_order, pair_keys, views, NameMap, Replica};

verus! {

/// The state of a jack's client.
#[derive(Debug, PartialEq, Eq)]
pub enum JackStatus {
    /// Not started, or stopped on purpose.
    Stopped,
    /// Connecting and shaking hands.
    Starting,
    /// Connected, its tools cached.
    Running,
    /// Starting or running failed, for this reason.
    Failed(String),
}

pub enum StatusModel {
    Stopped,
    Starting,
    Running,
    Failed(Seq<char>),
}

impl View for JackStatus {
    type V = StatusModel;

    open spec fn view(&self) -> StatusModel {
        match self {
            JackStatus::Stopped => StatusModel::Stopped,
            JackStatus::Starting => StatusModel::Starting,
            JackStatus::Running => StatusModel::Running,
            JackStatus::Failed(reason) => StatusModel::Failed(reason@),
        }
    }
}

impl JackStatus {
    pub fn is_running(&self) -> (r: bool)
        ensures
            r == (self@ is Running),
    {
        match self {
            JackStatus::Running => true,
            _ => false,
        }
    }
}

/// What is known of one jack at run time.
#[derive(Debug, PartialEq, Eq)]
pub struct JackRuntime {
    pub status: JackStatus,
    /// The handle of the connected client.
    pub client: Option<u64>,
    /// The tools as the upstream server listed them.
    pub tool_cache: Vec<Json>,
}

pub struct RuntimeModel {
    pub status: StatusModel,
    pub client: Option<u64>,
    pub tool_cache: Seq<Doc>,
}

impl View for JackRuntime {
    type V = RuntimeModel;

    open spec fn view(&self) -> RuntimeModel {
        RuntimeModel { status: self.status@, client: self.client, tool_cache: views(self.tool_cache@) }
    }
}

/// Signals that a connected client sends of its own accord.
#[derive(Debug, PartialEq, Eq)]
pub enum ClientEvent {
    /// The upstream server changed its tool list.
    ToolsListChanged,
    /// The connection is gone, for this reason.
    Exited(String),
}

/// All jacks at run time, by name.
#[derive(Debug, PartialEq, Eq)]
pub struct UpstreamManager {
    pub runtimes: NameMap<JackRuntime>,
}

impl View for UpstreamManager {
    type V = Map<Seq<char>, RuntimeModel>;

    open spec fn view(&self) -> Map<Seq<char>, RuntimeModel> {
        self.runtimes@
    }
}

/// Whether a jack is running.
pub open spec fn running(rts: Map<Seq<char>, RuntimeModel>, name: Seq<char>) -> bool {
    rts.contains_key(name) && rts[name].status is Running
}

/// The word, or words, for a jack's status.
pub open spec fn status_text(rts: Map<Seq<char>, RuntimeModel>, name: Seq<char>) -> Seq<char> {
    if rts.contains_key(name) {
        match rts[name].status {
            StatusModel::Running => "running"@,
            StatusModel::Starting => "starting"@,
            StatusModel::Stopped => "stopped"@,
            StatusModel::Failed(reason) => "failed: "@ + reason,
        }
    } else {
        "unknown"@
    }
}

/// A jack that nothing is connected for.
pub open spec fn idle_runtime(status: StatusModel) -> RuntimeModel {
    RuntimeModel { status, client: None, tool_cache: Seq::empty() }
}

/// The jacks after one of them failed.
pub open spec fn failed(rts: Map<Seq<char>, RuntimeModel>, name: Seq<char>, reason: Seq<char>) -> Map<
    Seq<char>,
    RuntimeModel,
> {
    rts.insert(name, idle_runtime(StatusModel::Failed(reason)))
}

/// The jacks with another status for one of them, all else of it kept.
pub open spec fn with_status(
    rts: Map<Seq<char>, RuntimeModel>,
    name: Seq<char>,
    status: StatusModel,
) -> Map<Seq<char>, RuntimeModel> {
    if rts.contains_key(name) {
        rts.insert(name, RuntimeModel { status, ..rts[name] })
    } else {
        rts.insert(name, idle_runtime(status))
    }
}

/// The jacks after one of them was stopped: no client, no tools.
pub open spec fn stopped(rts: Map<Seq<char>, RuntimeModel>, name: Seq<char>) -> Map<
    Seq<char>,
    RuntimeModel,
> {
    rts.insert(name, idle_runtime(StatusModel::Stopped))
}

/// The client of a jack, where it has one.
pub open spec fn client_of(rts: Map<Seq<char>, RuntimeModel>, name: Seq<char>) -> Option<u64> {
    if rts.contains_key(name) {
        rts[name].client
    } else {
        None
    }
}

/// The tools of one jack, each with the jack's name.
pub open spec fn named_tools(name: Seq<char>, tools: Seq<Doc>) -> Seq<(Seq<char>, Doc)> {
    tools.map_values(|t: Doc| (name, t))
}

/// Whether the tools of a jack are on offer: it runs, and its name is valid.
pub open spec fn offers(rts: Map<Seq<char>, RuntimeModel>, name: Seq<char>) -> bool {
    running(rts, name) && valid_jack_name(name)
}

/// The tools on offer of the jacks `names`, in their order.
pub open spec fn tools_of(rts: Map<Seq<char>, RuntimeModel>, names: Seq<Seq<char>>) -> Seq<
    (Seq<char>, Doc),
>
    decreases names.len(),
{
    if names.len() == 0 {
        Seq::empty()
    } else {
        let front = tools_of(rts, names.drop_last());
        if offers(rts, names.last()) {
            front + named_tools(names.last(), rts[names.last()].tool_cache)
        } else {
            front
        }
    }
}

/// All tools on offer, jack by jack in the order of their names.
pub open spec fn all_tools(rts: Map<Seq<char>, RuntimeModel>) -> Seq<(Seq<char>, Doc)> {
    tools_of(rts, in_order(rts.dom()))
}

/// What comes next when a jack is to be started.
#[derive(Debug, PartialEq, Eq)]
pub enum StartAction {
    /// Nothing: the jack is not started, or its start is over.
    Done,
    /// Shut this client down; the start is over.
    Shutdown(u64),
    /// Spawn the stdio server of this jack.
    Spawn,
    /// Connect to the remote server of this jack.
    Connect,
    /// Shake hands with the new client.
    Initialize(u64),
    /// Ask the new client for its tools.
    ListTools(u64),
    /// The jack runs; watch its client from now on.
    Supervise(u64),
}

/// What came of the last step of a start.
#[derive(Debug, PartialEq, Eq)]
pub enum StartEvent {
    SpawnFailed(String),
    Connected(u64),
    InitializeFailed(u64, String),
    Initialized(u64),
    ListFailed(u64, String),
    Listed(u64, Vec<Json>),
}

/// The jacks once a start has begun.
pub open spec fn start_begun(
    rts: Map<Seq<char>, RuntimeModel>,
    name: Seq<char>,
    transport: TransportModel,
) -> Map<Seq<char>, RuntimeModel> {
    if !valid_jack_name(name) {
        rts
    } else {
        let cleared = if client_of(rts, name) is Some {
            stopped(rts, name)
        } else {
            rts
        };
        match transport {
            TransportModel::Stdio { command, .. } => if command.len() == 0 {
                failed(cleared, name, "stdio jack has an empty command"@)
            } else {
                with_status(cleared, name, StatusModel::Starting)
            },
            TransportModel::StreamableHttp { url, .. } => if url.len() == 0 {
                failed(cleared, name, "streamable-http jack has an empty url"@)
            } else {
                with_status(cleared, name, StatusModel::Starting)
            },
        }
    }
}

/// What a start begins with, after the client that is still there was shut down.
pub open spec fn first_action(name: Seq<char>, transport: TransportModel) -> StartAction {
    if !valid_jack_name(name) {
        StartAction::Done
    } else {
        match transport {
            TransportModel::Stdio { command, .. } => if command.len() == 0 {
                StartAction::Done
            } else {
                StartAction::Spawn
            },
            TransportModel::StreamableHttp { url, .. } => if url.len() == 0 {
                StartAction::Done
            } else {
                StartAction::Connect
            },
        }
    }
}

/// The jacks after one step of a start.
pub open spec fn start_stepped(
    rts: Map<Seq<char>, RuntimeModel>,
    name: Seq<char>,
    event: StartEvent,
    needed: bool,
) -> Map<Seq<char>, RuntimeModel> {
    match event {
        StartEvent::SpawnFailed(e) => failed(rts, name, "spawn failed: "@ + e@),
        StartEvent::Connected(_) => rts,
        StartEvent::InitializeFailed(_, e) => failed(rts, name, "initialize failed: "@ + e@),
        StartEvent::Initialized(_) => rts,
        StartEvent::ListFailed(_, e) => failed(rts, name, "tools/list failed: "@ + e@),
        StartEvent::Listed(client, tools) => if needed {
            rts.insert(
                name,
                RuntimeModel {
                    status: StatusModel::Running,
                    client: Some(client),
                    tool_cache: views(tools@),
                },
            )
        } else {
            with_status(rts, name, StatusModel::Stopped)
        },
    }
}

/// What follows one step of a start. A jack that nobody needs any more by the
/// time its tools are there is shut down again.
pub open spec fn next_action(event: StartEvent, needed: bool) -> StartAction {
    match event {
        StartEvent::SpawnFailed(_) => StartAction::Done,
        StartEvent::Connected(c) => StartAction::Initialize(c),
        StartEvent::InitializeFailed(c, _) => StartAction::Shutdown(c),
        StartEvent::Initialized(c) => StartAction::ListTools(c),
        StartEvent::ListFailed(c, _) => StartAction::Shutdown(c),
        StartEvent::Listed(c, _) => if needed {
            StartAction::Supervise(c)
        } else {
            StartAction::Shutdown(c)
        },
    }
}

/// What a supervisor does next.
#[derive(Clone, Copy, Debug, PartialEq, Eq, Structural)]
pub enum SuperviseAction {
    /// Wait for the next event.
    Wait,
    /// Ask the client for its tools again.
    Relist,
    /// Announce the change, then wait for the next event.
    Broadcast,
    /// Announce the change; the supervisor is done.
    BroadcastAndEnd,
    /// The supervisor is done.
    End,
}

/// What a supervisor hears.
#[derive(Debug, PartialEq, Eq)]
pub enum SuperviseEvent {
    Client(ClientEvent),
    Relisted(Vec<Json>),
    RelistFailed(String),
}

/// Whether `client` is still the running client of the jack. Only then may its
/// supervisor change anything.
pub open spec fn owns_running(rts: Map<Seq<char>, RuntimeModel>, name: Seq<char>, client: u64) -> bool {
    running(rts, name) && rts[name].client == Some(client)
}

/// The jacks after a supervisor heard something.
pub open spec fn supervised(
    rts: Map<Seq<char>, RuntimeModel>,
    name: Seq<char>,
    client: u64,
    event: SuperviseEvent,
) -> Map<Seq<char>, RuntimeModel> {
    if !owns_running(rts, name, client) {
        rts
    } else {
        match event {
            SuperviseEvent::Client(ClientEvent::Exited(reason)) => failed(rts, name, reason@),
            SuperviseEvent::Relisted(tools) => rts.insert(
                name,
                RuntimeModel { tool_cache: views(tools@), ..rts[name] },
            ),
            _ => rts,
        }
    }
}

/// What a supervisor does about it.
pub open spec fn supervise_action(
    rts: Map<Seq<char>, RuntimeModel>,
    name: Seq<char>,
    client: u64,
    event: SuperviseEvent,
) -> SuperviseAction {
    let owns = owns_running(rts, name, client);
    match event {
        SuperviseEvent::Client(ClientEvent::ToolsListChanged) => if owns {
            SuperviseAction::Relist
        } else {
            SuperviseAction::Wait
        },
        SuperviseEvent::Client(ClientEvent::Exited(_)) => if owns {
            SuperviseAction::BroadcastAndEnd
        } else {
            SuperviseAction::End
        },
        SuperviseEvent::Relisted(_) => if owns {
            SuperviseAction::Broadcast
        } else {
            SuperviseAction::Wait
        },
        SuperviseEvent::RelistFailed(_) => SuperviseAction::Wait,
    }
}

/// A status as `{:?}` shows it.
pub open spec fn status_debug(status: StatusModel) -> Seq<char> {
    match status {
        StatusModel::Stopped => "Stopped"@,
        StatusModel::Starting => "Starting"@,
        StatusModel::Running => "Running"@,
        StatusModel::Failed(reason) => "Failed("@ + debug_text(reason) + ")"@,
    }
}

/// The client that a call goes to, or why it goes nowhere.
pub open spec fn call_route(rts: Map<Seq<char>, RuntimeModel>, jack: Seq<char>) -> Result<
    u64,
    Seq<char>,
> {
    if !rts.contains_key(jack) {
        Err("unknown jack '"@ + jack + "'"@)
    } else if !(rts[jack].status is Running) {
        Err("jack '"@ + jack + "' is not running (status: "@ + status_debug(rts[jack].status) + ")"@)
    } else {
        match rts[jack].client {
            Some(c) => Ok(c),
            None => Err("jack '"@ + jack + "' has no active client"@),
        }
    }
}

impl Default for UpstreamManager {
    fn default() -> (r: Self)
        ensures
            r@ == Map::<Seq<char>, RuntimeModel>::empty(),
    {
        UpstreamManager::new()
    }
}

impl UpstreamManager {
    pub fn new() -> (r: Self)
        ensures
            r@ == Map::<Seq<char>, RuntimeModel>::empty(),
    {
        UpstreamManager { runtimes: NameMap::new() }
    }

    fn take_runtimes(&mut self) -> (r: NameMap<JackRuntime>)
        ensures
            r@ == old(self)@,
    {
        let mut m: NameMap<JackRuntime> = NameMap::new();
        core::mem::swap(&mut m, &mut self.runtimes);
        m
    }

    fn put_runtime(&mut self, name: &str, rt: JackRuntime)
        ensures
            final(self)@ == old(self)@.insert(name@, rt@),
    {
        let m = self.take_runtimes();
        self.runtimes = m.put(name.to_owned(), rt);
    }

    /// All tools on offer: `(jack, tool)` for every tool of every running jack
    /// with a valid name.
    pub fn cached_tools(&self) -> (r: Vec<(String, Json)>)
        ensures
            r@.map_values(|e: (String, Json)| (e.0@, e.1@)) == all_tools(self@),
    {
        self.runtimes.facts();
        let ghost pairs = self.runtimes.pairs();
        let ghost keys = pair_keys(pairs);
        let ghost shown = |e: (String, Json)| (e.0@, e.1@);
        let n: usize = self.runtimes.len();
        let mut out: Vec<(String, Json)> = Vec::new();
        assert(keys.subrange(0, 0) =~= Seq::<Seq<char>>::empty());
        assert(out@.map_values(shown) =~= Seq::<(Seq<char>, Doc)>::empty());
        let mut i: usize = 0;
        while i < n
            invariant
                i <= n,
                n == pairs.len(),
                pairs == self.runtimes.pairs(),
                keys == pair_keys(pairs),
                shown == (|e: (String, Json)| (e.0@, e.1@)),
                forall|k: int|
                    0 <= k < pairs.len() ==> self@.contains_key((#[trigger] pairs[k]).0) && self@[pairs[k].0]
                        == pairs[k].1,
                out@.map_values(shown) == tools_of(self@, keys.subrange(0, i as int)),
            decreases n - i,
        {
            let name = self.runtimes.key_at(i);
            let rt = self.runtimes.value_at(i);
            assert(pairs[i as int].0 == name@ && pairs[i as int].1 == rt@);
            let ghost step = keys.subrange(0, i + 1);
            assert(step.drop_last() =~= keys.subrange(0, i as int));
            assert(step.last() == name@);
            let ghost base = out@.map_values(shown);
            if rt.status.is_running() && is_valid_jack_name(name.as_str()) {
                let ghost tools = views(rt.tool_cache@);
                assert(named_tools(name@, tools.subrange(0, 0)) =~= Seq::<(Seq<char>, Doc)>::empty());
                assert(base + named_tools(name@, tools.subrange(0, 0)) =~= base);
                let mut j: usize = 0;
                while j < rt.tool_cache.len()
                    invariant
                        j <= rt.tool_cache.len(),
                        tools == views(rt.tool_cache@),
                        shown == (|e: (String, Json)| (e.0@, e.1@)),
                        out@.map_values(shown) == base + named_tools(name@, tools.subrange(0, j as int)),
                    decreases rt.tool_cache.len() - j,
                {
                    let ghost prev = out@.map_values(shown);
                    let tool = rt.tool_cache[j].replica();
                    out.push((name.clone(), tool));
                    assert(out@.map_values(shown) =~= prev.push((name@, tools[j as int])));
                    j = j + 1;
                    assert(out@.map_values(shown) =~= base + named_tools(name@, tools.subrange(0, j as int)));
                }
                assert(tools.subrange(0, tools.len() as int) =~= tools);
            }
            i = i + 1;
        }
        assert(keys.subrange(0, keys.len() as int) =~= keys);
        out
    }

    /// Is the named jack running?
    pub fn is_jack_running(&self, name: &str) -> (r: bool)
        ensures
            r == running(self@, name@),
    {
        match self.runtimes.get(name) {
            Some(rt) => rt.status.is_running(),
            None => false,
        }
    }

    /// The words for a jack's status: `running`, `starting`, `stopped`,
    /// `failed: <reason>` or `unknown`.
    pub fn status_string(&self, name: &str) -> (r: String)
        ensures
            r@ == status_text(self@, name@),
    {
        match self.runtimes.get(name) {
            Some(rt) => match &rt.status {
                JackStatus::Running => "running".to_owned(),
                JackStatus::Starting => "starting".to_owned(),
                JackStatus::Stopped => "stopped".to_owned(),
                JackStatus::Failed(reason) => {
                    let mut s = "failed: ".to_owned();
                    s.append(reason.as_str());
                    s
                },
            },
            None => "unknown".to_owned(),
        }
    }

    /// Force a jack into failure: no client, no tools.
    pub fn set_failed(&mut self, name: &str, reason: String)
        ensures
            final(self)@ == failed(old(self)@, name@, reason@),
    {
        let tools: Vec<Json> = Vec::new();
        assert(views(tools@) =~= Seq::<Doc>::empty());
        self.put_runtime(name, JackRuntime { status: JackStatus::Failed(reason), client: None, tool_cache: tools });
    }

    /// Set a jack's status and keep all else of it.
    pub fn set_status(&mut self, name: &str, status: JackStatus)
        ensures
            final(self)@ == with_status(old(self)@, name@, status@),
    {
        let ghost whole = self@;
        let m = self.take_runtimes();
        let (rest, found) = m.taken(name);
        let rt = match found {
            Some(r) => {
                let mut next = r;
                next.status = status;
                next
            },
            None => {
                let tools: Vec<Json> = Vec::new();
                assert(views(tools@) =~= Seq::<Doc>::empty());
                JackRuntime { status, client: None, tool_cache: tools }
            },
        };
        self.runtimes = rest.put(name.to_owned(), rt);
        assert(self@ =~= with_status(whole, name@, status@));
    }

    /// Stop a jack: no client, no tools. The client that it had is to be shut
    /// down.
    pub fn stop_jack(&mut self, name: &str) -> (r: Option<u64>)
        ensures
            final(self)@ == stopped(old(self)@, name@),
            r == client_of(old(self)@, name@),
    {
        let client: Option<u64> = match self.runtimes.get(name) {
            Some(rt) => rt.client,
            None => None,
        };
        let tools: Vec<Json> = Vec::new();
        assert(views(tools@) =~= Seq::<Doc>::empty());
        self.put_runtime(name, JackRuntime { status: JackStatus::Stopped, client: None, tool_cache: tools });
        client
    }

    /// Begin to start a jack. A client that is still there is shut down first.
    pub fn start_jack(&mut self, jack: &JackConfig) -> (r: (Option<u64>, StartAction))
        ensures
            final(self)@ == start_begun(old(self)@, jack@.name, jack@.transport),
            r.0 == (if valid_jack_name(jack@.name) {
                client_of(old(self)@, jack@.name)
            } else {
                None
            }),
            r.1 == first_action(jack@.name, jack@.transport),
            valid_jack_name(jack@.name) && old(self)@.contains_key(jack@.name) ==> r.0 == old(self)@[jack@.name].client,
            valid_jack_name(jack@.name) ==> {
                &&& final(self)@.contains_key(jack@.name)
                &&& final(self)@[jack@.name].client is None
                &&& r.1 == StartAction::Done <==> final(self)@[jack@.name].status is Failed
                &&& r.1 != StartAction::Done <==> final(self)@[jack@.name].status is Starting
                &&& jack@.transport is Stdio ==> r.1 == StartAction::Done || r.1 == StartAction::Spawn
                &&& jack@.transport is StreamableHttp ==> r.1 == StartAction::Done || r.1 == StartAction::Connect
            },
            forall|other: Seq<char>|
                other != jack@.name && #[trigger] old(self)@.contains_key(other) ==> final(self)@.contains_key(other)
                    && final(self)@[other] == old(self)@[other],
    {
        let ghost whole = self@;
        let name = jack.name.as_str();
        if !is_valid_jack_name(name) {
            return (None, StartAction::Done);
        }
        let has_client = match self.runtimes.get(name) {
            Some(rt) => rt.client.is_some(),
            None => false,
        };
        let old_client: Option<u64> = if has_client {
            self.stop_jack(name)
        } else {
            None
        };
        let ghost cleared = self@;
        self.set_status(name, JackStatus::Starting);
        match &jack.transport {
            JackTransport::Stdio { command, .. } => {
                if command.as_str().is_empty() {
                    self.set_failed(name, "stdio jack has an empty command".to_owned());
                    assert(self@ =~= failed(cleared, name@, "stdio jack has an empty command"@));
                    (old_client, StartAction::Done)
                } else {
                    (old_client, StartAction::Spawn)
                }
            },
            JackTransport::StreamableHttp { url, .. } => {
                if url.as_str().is_empty() {
                    self.set_failed(name, "streamable-http jack has an empty url".to_owned());
                    assert(self@ =~= failed(cleared, name@, "streamable-http jack has an empty url"@));
                    (old_client, StartAction::Done)
                } else {
                    (old_client, StartAction::Connect)
                }
            },
        }
    }

    /// Go on with the start of a jack after one of its steps.
    pub fn start_step(&mut self, name: &str, event: StartEvent, config: &PatchbayConfig) -> (r: StartAction)
        ensures
            final(self)@ == start_stepped(old(self)@, name@, event, config@.should_run(name@)),
            r == next_action(event, config@.should_run(name@)),
            event matches StartEvent::Listed(c, tools) ==> {
                let wanted = switched_on(config@, name@) || exists|client: Seq<char>| wanted_by(config@, name@, client);
                &&& wanted ==> {
                    &&& r == StartAction::Supervise(c)
                    &&& final(self)@.contains_key(name@)
                    &&& final(self)@[name@].status is Running
                    &&& final(self)@[name@].client == Some(c)
                    &&& final(self)@[name@].tool_cache == views(tools@)
                }
                &&& !wanted ==> r == StartAction::Shutdown(c) && final(self)@[name@].status is Stopped
            },
            forall|other: Seq<char>|
                other != name@ && #[trigger] old(self)@.contains_key(other) ==> final(self)@.contains_key(other)
                    && final(self)@[other] == old(self)@[other],
    {
        proof {
            jacks_run_for_somebody(config@, name@);
        }
        match event {
            StartEvent::SpawnFailed(e) => {
                let mut s = "spawn failed: ".to_owned();
                s.append(e.as_str());
                self.set_failed(name, s);
                StartAction::Done
            },
            StartEvent::Connected(c) => StartAction::Initialize(c),
            StartEvent::InitializeFailed(c, e) => {
                let mut s = "initialize failed: ".to_owned();
                s.append(e.as_str());
                self.set_failed(name, s);
                StartAction::Shutdown(c)
            },
            StartEvent::Initialized(c) => StartAction::ListTools(c),
            StartEvent::ListFailed(c, e) => {
                let mut s = "tools/list failed: ".to_owned();
                s.append(e.as_str());
                self.set_failed(name, s);
                StartAction::Shutdown(c)
            },
            StartEvent::Listed(c, tools) => {
                if config.should_run_jack(name) {
                    self.put_runtime(
                        name,
                        JackRuntime { status: JackStatus::Running, client: Some(c), tool_cache: tools },
                    );
                    StartAction::Supervise(c)
                } else {
                    self.set_status(name, JackStatus::Stopped);
                    StartAction::Shutdown(c)
                }
            },
        }
    }

    /// Whether `client` is still the running client of the jack.
    fn is_current(&self, name: &str, client: u64) -> (r: bool)
        ensures
            r == owns_running(self@, name@, client),
    {
        match self.runtimes.get(name) {
            Some(rt) => rt.status.is_running() && match rt.client {
                Some(c) => c == client,
                None => false,
            },
            None => false,
        }
    }

    /// What the supervisor of `client` does about what it heard. A supervisor
    /// whose client was replaced changes nothing.
    pub fn supervise(&mut self, name: &str, client: u64, event: SuperviseEvent) -> (r: SuperviseAction)
        ensures
            final(self)@ == supervised(old(self)@, name@, client, event),
            r == supervise_action(old(self)@, name@, client, event),
    {
        let ghost whole = self@;
        let owns = self.is_current(name, client);
        match event {
            SuperviseEvent::Client(ClientEvent::ToolsListChanged) => if owns {
                SuperviseAction::Relist
            } else {
                SuperviseAction::Wait
            },
            SuperviseEvent::Client(ClientEvent::Exited(reason)) => if owns {
                self.set_failed(name, reason);
                SuperviseAction::BroadcastAndEnd
            } else {
                SuperviseAction::End
            },
            SuperviseEvent::Relisted(tools) => if owns {
                self.put_runtime(
                    name,
                    JackRuntime { status: JackStatus::Running, client: Some(client), tool_cache: tools },
                );
                assert(self@ =~= supervised(whole, name@, client, event));
                SuperviseAction::Broadcast
            } else {
                SuperviseAction::Wait
            },
            SuperviseEvent::RelistFailed(_) => SuperviseAction::Wait,
        }
    }

    /// The client that a call to a jack goes to.
    pub fn route_call(&self, jack_name: &str) -> (r: Result<u64, String>)
        ensures
            r matches Ok(c) ==> call_route(self@, jack_name@) == Ok::<u64, Seq<char>>(c),
            r matches Err(e) ==> call_route(self@, jack_name@) == Err::<u64, Seq<char>>(e@),
    {
        match self.runtimes.get(jack_name) {
            None => {
                let mut s = "unknown jack '".to_owned();
                s.append(jack_name);
                s.append("'");
                Err(s)
            },
            Some(rt) => {
                if !rt.status.is_running() {
                    let mut s = "jack '".to_owned();
                    s.append(jack_name);
                    s.append("' is not running (status: ");
                    match &rt.status {
                        JackStatus::Stopped => {
                            s.append("Stopped");
                        },
                        JackStatus::Starting => {
                            s.append("Starting");
                        },
                        JackStatus::Running => {
                            s.append("Running");
                        },
                        JackStatus::Failed(reason) => {
                            let mut t = "Failed(".to_owned();
                            t.append(quoted(reason.as_str()).as_str());
                            t.append(")");
                            s.append(t.as_str());
                        },
                    }
                    s.append(")");
                    Err(s)
                } else {
                    match rt.client {
                        Some(c) => Ok(c),
                        None => {
                            let mut s = "jack '".to_owned();
                            s.append(jack_name);
                            s.append("' has no active client");
                            Err(s)
                        },
                    }
                }
            },
        }
    }
}

/// What every operation keeps: a jack has tools only while it runs, and a jack
/// that runs has a client.
pub open spec fn sound(rts: Map<Seq<char>, RuntimeModel>) -> bool {
    forall|name: Seq<char>| #[trigger]
        rts.contains_key(name) ==> {
            &&& rts[name].status is Running <==> rts[name].client is Some
            &&& !(rts[name].status is Running) ==> rts[name].tool_cache.len() == 0
        }
}

/// Starting, supervising and stopping all keep that.
pub proof fn operations_keep_sound(
    rts: Map<Seq<char>, RuntimeModel>,
    name: Seq<char>,
    transport: TransportModel,
    start: StartEvent,
    needed: bool,
    client: u64,
    event: SuperviseEvent,
)
    requires
        sound(rts),
    ensures
        sound(stopped(rts, name)),
        sound(start_begun(rts, name, transport)),
        !running(rts, name) ==> sound(start_stepped(rts, name, start, needed)),
        sound(supervised(rts, name, client, event)),
{
}

/// A supervisor whose client was replaced, or whose jack does not run, changes
/// nothing and announces nothing.
pub proof fn stale_supervisor_is_harmless(
    rts: Map<Seq<char>, RuntimeModel>,
    name: Seq<char>,
    client: u64,
    event: SuperviseEvent,
)
    requires
        client_of(rts, name) != Some(client),
    ensures
        supervised(rts, name, client, event) == rts,
        !(supervise_action(rts, name, client, event) is Broadcast),
        !(supervise_action(rts, name, client, event) is BroadcastAndEnd),
{
}

/// A jack with an invalid name is never started and never offers a tool.
pub proof fn invalid_name_never_starts(
    rts: Map<Seq<char>, RuntimeModel>,
    name: Seq<char>,
    transport: TransportModel,
)
    requires
        !valid_jack_name(name),
    ensures
        start_begun(rts, name, transport) == rts,
        first_action(name, transport) is Done,
        !offers(rts, name),
{
}

/// Only running jacks with valid names have tools on offer.
pub proof fn offered_tools_run(rts: Map<Seq<char>, RuntimeModel>, names: Seq<Seq<char>>, i: int)
    requires
        0 <= i < tools_of(rts, names).len(),
    ensures
        offers(rts, tools_of(rts, names)[i].0),
    decreases names.len(),
{
    if names.len() > 0 {
        let front = tools_of(rts, names.drop_last());
        if i < front.len() {
            offered_tools_run(rts, names.drop_last(), i);
        }
    }
}

/// The tools on offer are those of the jacks that run under a valid name, each under
/// the name of its jack, and all of them.
pub proof fn offered_tools_are_listed(rts: Map<Seq<char>, RuntimeModel>, jack: Seq<char>, t: Doc)
    requires
        rts.dom().finite(),
    ensures
        all_tools(rts).contains((jack, t)) <==> {
            &&& rts.contains_key(jack)
            &&& rts[jack].status is Running
            &&& valid_jack_name(jack)
            &&& exists|k: int| 0 <= k < rts[jack].tool_cache.len() && #[trigger] rts[jack].tool_cache[k] == t
        },
{
    let names = in_order(rts.dom());
    crate::name_map::in_order_lists(rts.dom());
    lemma_tools_of(rts, names, jack, t);
    assert(names.to_set().contains(jack) <==> rts.contains_key(jack));
}

proof fn lemma_tools_of(rts: Map<Seq<char>, RuntimeModel>, names: Seq<Seq<char>>, jack: Seq<char>, t: Doc)
    ensures
        tools_of(rts, names).contains((jack, t)) <==> {
            &&& names.contains(jack)
            &&& rts.contains_key(jack)
            &&& rts[jack].status is Running
            &&& valid_jack_name(jack)
            &&& exists|k: int| 0 <= k < rts[jack].tool_cache.len() && #[trigger] rts[jack].tool_cache[k] == t
        },
    decreases names.len(),
{
    if names.len() > 0 {
        let last = names.last();
        let front = names.drop_last();
        lemma_tools_of(rts, front, jack, t);
        let before = tools_of(rts, front);
        let whole = tools_of(rts, names);
        assert(names =~= front.push(last));
        assert(names.contains(jack) <==> front.contains(jack) || last == jack) by {
            if front.contains(jack) {
                let i = choose|i: int| 0 <= i < front.len() && front[i] == jack;
                assert(names[i] == jack);
            }
            if last == jack {
                assert(names[names.len() - 1] == jack);
            }
        }
        if offers(rts, last) {
            let more = named_tools(last, rts[last].tool_cache);
            assert(whole == before + more);
            if before.contains((jack, t)) {
                let i = choose|i: int| 0 <= i < before.len() && before[i] == (jack, t);
                assert(whole[i] == (jack, t));
            }
            if whole.contains((jack, t)) {
                let i = choose|i: int| 0 <= i < whole.len() && whole[i] == (jack, t);
                if i < before.len() {
                    assert(before[i] == (jack, t));
                } else {
                    assert(rts[last].tool_cache[i - before.len()] == t);
                }
            }
            if last == jack && exists|k: int| 0 <= k < rts[jack].tool_cache.len() && #[trigger] rts[jack].tool_cache[k] == t {
                let k = choose|k: int| 0 <= k < rts[jack].tool_cache.len() && #[trigger] rts[jack].tool_cache[k] == t;
                assert(whole[before.len() + k] == (jack, t));
            }
        }
    }
}

} // verus!
