//! The state, the effects that a change asks for, and the one guarded way to
//! the disk.

use vstd::prelude::*;
#[allow(unused_imports)]
use vstd::string::*;

use crate::config::schema::{ClientOverride, ConfigModel, OverrideModel, PatchbayConfig, SeenClient, SeenModel};
use crate::gateway::registry::SessionRegistry;
use crate::gateway::session::SessionModel;
use crate::name_map::{view_opt, views, NameMap};
use crate::text::texts;
use crate::upstream::manager::{RuntimeModel, UpstreamManager};

verus! {

/// The life of the gateway's listener.
#[derive(Debug, PartialEq, Eq)]
pub enum GatewayStatus {
    Starting,
    Running { port: u16 },
    Failed { reason: String },
    Stopped,
}

pub enum GatewayModel {
    Starting,
    Running { port: u16 },
    Failed { reason: Seq<char> },
    Stopped,
}

impl View for GatewayStatus {
    type V = GatewayModel;

    open spec fn view(&self) -> GatewayModel {
        match self {
            GatewayStatus::Starting => GatewayModel::Starting,
            GatewayStatus::Running { port } => GatewayModel::Running { port: *port },
            GatewayStatus::Failed { reason } => GatewayModel::Failed { reason: reason@ },
            GatewayStatus::Stopped => GatewayModel::Stopped,
        }
    }
}

/// What one deletion of agents removed, so that it can be put back: only the
/// records of those agents, never the whole configuration.
#[derive(Debug, PartialEq, Eq)]
pub struct AgentTombstone {
    /// Names this very deletion; a stale token undoes nothing.
    pub token: u64,
    pub clients: Vec<SeenClient>,
    pub overrides: Vec<(String, ClientOverride)>,
    pub forbidden: Vec<String>,
}

pub struct TombstoneModel {
    pub token: u64,
    pub clients: Seq<SeenModel>,
    pub overrides: Seq<(Seq<char>, OverrideModel)>,
    pub forbidden: Seq<Seq<char>>,
}

impl View for AgentTombstone {
    type V = TombstoneModel;

    open spec fn view(&self) -> TombstoneModel {
        TombstoneModel {
            token: self.token,
            clients: views(self.clients@),
            overrides: self.overrides@.map_values(|e: (String, ClientOverride)| (e.0@, e.1@)),
            forbidden: texts(self.forbidden@),
        }
    }
}

/// The whole state.
#[derive(Debug, PartialEq, Eq)]
pub struct AppState {
    /// The configuration as it is in force.
    pub config: PatchbayConfig,
    pub sessions: SessionRegistry,
    pub upstream: UpstreamManager,
    pub status: GatewayStatus,
    /// Why the configuration on disk could not be used; none where it could.
    pub config_error: Option<String>,
    /// The one deletion of agents that can be undone.
    pub agent_tombstone: Option<AgentTombstone>,
    /// The token of the next deletion.
    pub next_token: u64,
    /// When each client's last sighting was last refreshed, in seconds.
    pub last_seen_touch: NameMap<u64>,
    /// The clients that the user is being asked about.
    pub pending_approvals: Vec<String>,
}

pub struct AppModel {
    pub config: ConfigModel,
    pub sessions: Map<Seq<char>, SessionModel>,
    pub upstream: Map<Seq<char>, RuntimeModel>,
    pub status: GatewayModel,
    pub config_error: Option<Seq<char>>,
    pub agent_tombstone: Option<TombstoneModel>,
    pub next_token: u64,
    pub last_seen_touch: Map<Seq<char>, u64>,
    pub pending_approvals: Seq<Seq<char>>,
}

impl View for AppState {
    type V = AppModel;

    open spec fn view(&self) -> AppModel {
        AppModel {
            config: self.config@,
            sessions: self.sessions@,
            upstream: self.upstream@,
            status: self.status@,
            config_error: view_opt(self.config_error),
            agent_tombstone: view_opt(self.agent_tombstone),
            next_token: self.next_token,
            last_seen_touch: self.last_seen_touch@,
            pending_approvals: texts(self.pending_approvals@),
        }
    }
}

/// Something that a change of the state asks for.
#[derive(Debug, PartialEq, Eq)]
pub enum Effect {
    /// Bring every jack in line with the configuration, and announce it.
    ReconcileAll,
    /// Bring every jack in line with the configuration, and announce nothing.
    ReconcileEach,
    /// Announce a change of the tool list to every session.
    Broadcast,
    StartJack(String),
    StopJack(String),
    /// Delete one agent.
    DeleteClient(String),
    /// Register, or unregister, the start with the desktop session.
    SetAutorun(bool),
    /// End every notification stream.
    CloseStreams,
    StopListener,
    StartListener(u16),
    /// Tell every waiting request what the user decided.
    AnswerApproval { name: String, allowed: bool },
    /// A line of the request log.
    RequestEvent(String),
    /// An error line of the request log.
    RequestError(String),
    /// Refresh every user interface.
    NotifyState,
    /// Rebuild every user interface: something came or went.
    NotifyStructure,
}

pub enum EffectModel {
    ReconcileAll,
    ReconcileEach,
    Broadcast,
    StartJack(Seq<char>),
    StopJack(Seq<char>),
    DeleteClient(Seq<char>),
    SetAutorun(bool),
    CloseStreams,
    StopListener,
    StartListener(u16),
    AnswerApproval { name: Seq<char>, allowed: bool },
    RequestEvent(Seq<char>),
    RequestError(Seq<char>),
    NotifyState,
    NotifyStructure,
}

impl View for Effect {
    type V = EffectModel;

    open spec fn view(&self) -> EffectModel {
        match self {
            Effect::ReconcileAll => EffectModel::ReconcileAll,
            Effect::ReconcileEach => EffectModel::ReconcileEach,
            Effect::Broadcast => EffectModel::Broadcast,
            Effect::StartJack(n) => EffectModel::StartJack(n@),
            Effect::StopJack(n) => EffectModel::StopJack(n@),
            Effect::DeleteClient(n) => EffectModel::DeleteClient(n@),
            Effect::SetAutorun(b) => EffectModel::SetAutorun(*b),
            Effect::CloseStreams => EffectModel::CloseStreams,
            Effect::StopListener => EffectModel::StopListener,
            Effect::StartListener(p) => EffectModel::StartListener(*p),
            Effect::AnswerApproval { name, allowed } => EffectModel::AnswerApproval {
                name: name@,
                allowed: *allowed,
            },
            Effect::RequestEvent(t) => EffectModel::RequestEvent(t@),
            Effect::RequestError(t) => EffectModel::RequestError(t@),
            Effect::NotifyState => EffectModel::NotifyState,
            Effect::NotifyStructure => EffectModel::NotifyStructure,
        }
    }
}

/// What is to be written to disk.
#[derive(Debug, PartialEq, Eq)]
pub enum Write {
    /// Nothing.
    Nothing,
    /// Nothing may be written, for this reason.
    Refused(String),
    /// This configuration.
    Config(PatchbayConfig),
    /// The observed clients of this configuration, and not the configuration.
    State(PatchbayConfig),
}

pub enum WriteModel {
    Nothing,
    Refused(Seq<char>),
    Config(ConfigModel),
    State(ConfigModel),
}

impl View for Write {
    type V = WriteModel;

    open spec fn view(&self) -> WriteModel {
        match self {
            Write::Nothing => WriteModel::Nothing,
            Write::Refused(t) => WriteModel::Refused(t@),
            Write::Config(c) => WriteModel::Config(c@),
            Write::State(c) => WriteModel::State(c@),
        }
    }
}

/// The model of what came of a writing.
pub open spec fn saving(r: Result<(), String>) -> Result<(), Seq<char>> {
    match r {
        Ok(_) => Ok(()),
        Err(e) => Err(e@),
    }
}

/// The refusal to write a configuration over one that did not parse.
pub open spec fn config_refusal(reason: Seq<char>) -> Seq<char> {
    "refusing to save: the config on disk did not parse ("@ + reason
        + "), so memory holds an empty default. Fix the file and use Reload config."@
}

/// The refusal to write the observed clients in that case.
pub open spec fn state_refusal(reason: Seq<char>) -> Seq<char> {
    "refusing to save: the config on disk did not parse ("@ + reason + ")"@
}

impl AppModel {
    /// With another configuration in force, and all else the same.
    pub open spec fn with_config(self, config: ConfigModel) -> AppModel {
        AppModel { config, ..self }
    }

    /// What a configuration that is to be saved comes to: it is written, but
    /// never over a file that did not parse.
    pub open spec fn config_write(self, candidate: ConfigModel) -> WriteModel {
        match self.config_error {
            Some(reason) => WriteModel::Refused(config_refusal(reason)),
            None => WriteModel::Config(candidate),
        }
    }

    /// The same for the observed clients alone.
    pub open spec fn state_write(self, candidate: ConfigModel) -> WriteModel {
        match self.config_error {
            Some(reason) => WriteModel::Refused(state_refusal(reason)),
            None => WriteModel::State(candidate),
        }
    }

    /// What came of it, where `saved` says how the writing went.
    pub open spec fn written(self, saved: Result<(), Seq<char>>) -> Result<(), Seq<char>> {
        match self.config_error {
            Some(reason) => Err(config_refusal(reason)),
            None => saved,
        }
    }

    /// The same for the observed clients alone.
    pub open spec fn state_written(self, saved: Result<(), Seq<char>>) -> Result<(), Seq<char>> {
        match self.config_error {
            Some(reason) => Err(state_refusal(reason)),
            None => saved,
        }
    }

    /// What a change asks to be written: nothing where there is no change.
    pub open spec fn plan(self, changed: bool, candidate: ConfigModel) -> WriteModel {
        if changed {
            self.config_write(candidate)
        } else {
            WriteModel::Nothing
        }
    }

    /// What a change is answered.
    pub open spec fn verdict(self, changed: bool, saved: Result<(), Seq<char>>) -> Result<(), Seq<char>> {
        if changed {
            self.written(saved)
        } else {
            Ok(())
        }
    }

    /// The state after a change: it is committed exactly where it was saved.
    pub open spec fn committed(
        self,
        changed: bool,
        candidate: ConfigModel,
        saved: Result<(), Seq<char>>,
    ) -> AppModel {
        if changed && self.written(saved) is Ok {
            self.with_config(candidate)
        } else {
            self
        }
    }

    /// The effects of a change: `unchanged` where there is none, `done` where
    /// it was saved, and nothing where it was not.
    pub open spec fn effects(
        self,
        changed: bool,
        saved: Result<(), Seq<char>>,
        unchanged: Seq<EffectModel>,
        done: Seq<EffectModel>,
    ) -> Seq<EffectModel> {
        if !changed {
            unchanged
        } else if self.written(saved) is Ok {
            done
        } else {
            Seq::empty()
        }
    }
}

/// A change that was not saved leaves the state as it was and has no effects.
pub proof fn unsaved_changes_nothing(
    m: AppModel,
    candidate: ConfigModel,
    saved: Result<(), Seq<char>>,
    unchanged: Seq<EffectModel>,
    done: Seq<EffectModel>,
)
    requires
        m.written(saved) is Err,
    ensures
        m.committed(true, candidate, saved) == m,
        m.verdict(true, saved) is Err,
        m.effects(true, saved, unchanged, done) == Seq::<EffectModel>::empty(),
{
}

/// While the configuration on disk does not parse, nothing is ever written and
/// nothing that needs writing is committed.
pub proof fn unparsed_config_is_never_overwritten(
    m: AppModel,
    changed: bool,
    candidate: ConfigModel,
    saved: Result<(), Seq<char>>,
)
    requires
        m.config_error is Some,
    ensures
        !(m.plan(changed, candidate) is Config),
        !(m.plan(changed, candidate) is State),
        m.state_write(candidate) is Refused,
        m.committed(changed, candidate, saved) == m,
{
}

impl AppState {
    /// A fresh state from a loaded configuration.
    pub fn new(config: PatchbayConfig) -> (r: Self)
        ensures
            r@ == (AppModel {
                config: config@,
                sessions: Map::empty(),
                upstream: Map::empty(),
                status: GatewayModel::Starting,
                config_error: None,
                agent_tombstone: None,
                next_token: 1,
                last_seen_touch: Map::empty(),
                pending_approvals: Seq::empty(),
            }),
    {
        let pending: Vec<String> = Vec::new();
        assert(texts(pending@) =~= Seq::<Seq<char>>::empty());
        AppState {
            config,
            sessions: SessionRegistry::new(),
            upstream: UpstreamManager::new(),
            status: GatewayStatus::Starting,
            config_error: None,
            agent_tombstone: None,
            next_token: 1,
            last_seen_touch: NameMap::new(),
            pending_approvals: pending,
        }
    }

    fn refusal_text(reason: &str) -> (r: String)
        ensures
            r@ == config_refusal(reason@),
    {
        let mut s = "refusing to save: the config on disk did not parse (".to_owned();
        s.append(reason);
        s.append("), so memory holds an empty default. Fix the file and use Reload config.");
        s
    }

    fn state_refusal_text(reason: &str) -> (r: String)
        ensures
            r@ == state_refusal(reason@),
    {
        let mut s = "refusing to save: the config on disk did not parse (".to_owned();
        s.append(reason);
        s.append(")");
        s
    }

    /// The only way to the disk: a candidate configuration is written, unless
    /// the file there did not parse.
    pub fn persist(&self, candidate: PatchbayConfig) -> (r: Write)
        ensures
            r@ == self@.config_write(candidate@),
    {
        match &self.config_error {
            Some(reason) => Write::Refused(AppState::refusal_text(reason.as_str())),
            None => Write::Config(candidate),
        }
    }

    /// The same for the observed clients alone.
    pub fn persist_state(&self, candidate: PatchbayConfig) -> (r: Write)
        ensures
            r@ == self@.state_write(candidate@),
    {
        match &self.config_error {
            Some(reason) => Write::Refused(AppState::state_refusal_text(reason.as_str())),
            None => Write::State(candidate),
        }
    }

    /// What came of writing a configuration.
    pub(crate) fn persisted(&self, saved: Result<(), String>) -> (r: Result<(), String>)
        ensures
            saving(r) == self@.written(saving(saved)),
    {
        match &self.config_error {
            Some(reason) => Err(AppState::refusal_text(reason.as_str())),
            None => saved,
        }
    }

    /// What came of writing the observed clients.
    pub(crate) fn state_persisted(&self, saved: Result<(), String>) -> (r: Result<(), String>)
        ensures
            saving(r) == self@.state_written(saving(saved)),
    {
        match &self.config_error {
            Some(reason) => Err(AppState::state_refusal_text(reason.as_str())),
            None => saved,
        }
    }

    pub(crate) fn planned(&self, changed: bool, candidate: PatchbayConfig) -> (r: Write)
        ensures
            r@ == self@.plan(changed, candidate@),
    {
        if changed {
            self.persist(candidate)
        } else {
            Write::Nothing
        }
    }

    /// Commit a change where it was saved.
    pub(crate) fn commit(&mut self, changed: bool, candidate: PatchbayConfig, saved: Result<(), String>) -> (r:
        Result<bool, String>)
        ensures
            final(self)@ == old(self)@.committed(changed, candidate@, saving(saved)),
            r is Ok <==> old(self)@.verdict(changed, saving(saved)) is Ok,
            r matches Ok(done) ==> done == changed,
            r matches Err(e) ==> old(self)@.verdict(changed, saving(saved)) == Err::<(), Seq<char>>(e@),
    {
        if !changed {
            return Ok(false);
        }
        match self.persisted(saved) {
            Ok(_) => {
                self.config = candidate;
                Ok(true)
            },
            Err(e) => Err(e),
        }
    }
}

pub open spec fn bool_word(b: bool) -> Seq<char> {
    if b {
        "true"@
    } else {
        "false"@
    }
}

pub fn bool_text(b: bool) -> (r: &'static str)
    ensures
        r@ == bool_word(b),
{
    if b {
        "true"
    } else {
        "false"
    }
}

/// One effect.
pub(crate) fn effects_1(a: Effect) -> (r: Vec<Effect>)
    ensures
        views(r@) == seq![a@],
{
    let mut out: Vec<Effect> = Vec::new();
    out.push(a);
    assert(views(out@) =~= seq![a@]);
    out
}

/// Two effects, in order.
pub(crate) fn effects_2(a: Effect, b: Effect) -> (r: Vec<Effect>)
    ensures
        views(r@) == seq![a@, b@],
{
    let mut out: Vec<Effect> = Vec::new();
    out.push(a);
    out.push(b);
    assert(views(out@) =~= seq![a@, b@]);
    out
}

/// Three effects, in order.
pub(crate) fn effects_3(a: Effect, b: Effect, c: Effect) -> (r: Vec<Effect>)
    ensures
        views(r@) == seq![a@, b@, c@],
{
    let mut out: Vec<Effect> = Vec::new();
    out.push(a);
    out.push(b);
    out.push(c);
    assert(views(out@) =~= seq![a@, b@, c@]);
    out
}

/// Four effects, in order.
pub(crate) fn effects_4(a: Effect, b: Effect, c: Effect, d: Effect) -> (r: Vec<Effect>)
    ensures
        views(r@) == seq![a@, b@, c@, d@],
{
    let mut out: Vec<Effect> = Vec::new();
    out.push(a);
    out.push(b);
    out.push(c);
    out.push(d);
    assert(views(out@) =~= seq![a@, b@, c@, d@]);
    out
}

/// No effects.
pub(crate) fn effects_0() -> (r: Vec<Effect>)
    ensures
        views(r@) == Seq::<EffectModel>::empty(),
{
    let out: Vec<Effect> = Vec::new();
    assert(views(out@) =~= Seq::<EffectModel>::empty());
    out
}

} // verus!
