//! Jacks: switching, adding, removing and listing them, and keeping what runs
//! in line with the configuration.

use vstd::prelude::*;
#[allow(unused_imports)]
use vstd::string::*;

use super::clients::{named_event, named_event_text};
use super::state::{
    bool_text, bool_word, effects_0, effects_1, effects_2, saving, AppModel, AppState, Effect, EffectModel,
    Write, WriteModel,
};
use super::laws::lemma_configured;
use crate::config::laws::{a_switch_is_what_it_was_switched_to, switched_on};
use crate::config::grants::{find_jack, first_named, has_jack, jack_names, lemma_first_named};
use crate::config::schema::{
    ConfigModel, JackConfig, JackConfigInput, JackModel, JackTransport, TransportModel,
};
use crate::config::validate::{is_valid_jack_name, valid_jack_name};
use crate::json::{Doc, Json};
use crate::name_map::{lemma_filter_none, lemma_filter_step, views, Replica};
use crate::text::{occurs_at, same_text, starts_with_text, texts};
use crate::upstream::manager::{all_tools, client_of, running, status_text, stopped};

verus! {

/// What came of switching a jack: its global switch, and the words for its
/// status.
#[derive(Debug, PartialEq, Eq)]
pub struct ToggleResult {
    pub patched: bool,
    pub status: String,
}

/// One jack as the tray shows it.
#[derive(Debug, PartialEq, Eq)]
pub struct JackLine {
    pub name: String,
    pub patched: bool,
}

/// Why a jack was not added.
#[derive(Debug, PartialEq, Eq)]
pub enum AddJackError {
    InvalidName(String),
    DuplicateName(String),
    /// The transport lacks what it needs.
    MissingRequiredField(String),
    PersistFailed(String),
}

/// Why a jack was not removed.
#[derive(Debug, PartialEq, Eq)]
pub enum RemoveJackError {
    NotFound(String),
    PersistFailed(String),
}

/// One jack in a listing.
#[derive(Debug, PartialEq, Eq)]
pub struct JackSummary {
    pub name: String,
    pub patched: bool,
    /// `stdio` or `streamable_http`.
    pub transport: String,
    pub status: String,
    /// The number of its tools that are on offer.
    pub tool_count: usize,
}

pub enum AddErrorModel {
    InvalidName(Seq<char>),
    DuplicateName(Seq<char>),
    MissingRequiredField(Seq<char>),
    PersistFailed(Seq<char>),
}

impl View for AddJackError {
    type V = AddErrorModel;

    open spec fn view(&self) -> AddErrorModel {
        match self {
            AddJackError::InvalidName(n) => AddErrorModel::InvalidName(n@),
            AddJackError::DuplicateName(n) => AddErrorModel::DuplicateName(n@),
            AddJackError::MissingRequiredField(s) => AddErrorModel::MissingRequiredField(s@),
            AddJackError::PersistFailed(s) => AddErrorModel::PersistFailed(s@),
        }
    }
}

pub enum RemoveErrorModel {
    NotFound(Seq<char>),
    PersistFailed(Seq<char>),
}

impl View for RemoveJackError {
    type V = RemoveErrorModel;

    open spec fn view(&self) -> RemoveErrorModel {
        match self {
            RemoveJackError::NotFound(n) => RemoveErrorModel::NotFound(n@),
            RemoveJackError::PersistFailed(s) => RemoveErrorModel::PersistFailed(s@),
        }
    }
}

pub struct ToggleModel {
    pub patched: bool,
    pub status: Seq<char>,
}

impl View for ToggleResult {
    type V = ToggleModel;

    open spec fn view(&self) -> ToggleModel {
        ToggleModel { patched: self.patched, status: self.status@ }
    }
}

pub struct LineModel {
    pub name: Seq<char>,
    pub patched: bool,
}

impl View for JackLine {
    type V = LineModel;

    open spec fn view(&self) -> LineModel {
        LineModel { name: self.name@, patched: self.patched }
    }
}

pub struct SummaryModel {
    pub name: Seq<char>,
    pub patched: bool,
    pub transport: Seq<char>,
    pub status: Seq<char>,
    pub tool_count: nat,
}

impl View for JackSummary {
    type V = SummaryModel;

    open spec fn view(&self) -> SummaryModel {
        SummaryModel {
            name: self.name@,
            patched: self.patched,
            transport: self.transport@,
            status: self.status@,
            tool_count: self.tool_count as nat,
        }
    }
}

impl AddErrorModel {
    /// The reason in words.
    pub open spec fn message(self) -> Seq<char> {
        match self {
            AddErrorModel::InvalidName(n) => "invalid jack name '"@ + n
                + "': must match [A-Za-z0-9_-]+, contain no '__', and be <= 40 chars"@,
            AddErrorModel::DuplicateName(n) => "a jack named '"@ + n + "' already exists"@,
            AddErrorModel::MissingRequiredField(s) => s,
            AddErrorModel::PersistFailed(s) => "failed to persist config: "@ + s,
        }
    }
}

impl RemoveErrorModel {
    /// The reason in words.
    pub open spec fn message(self) -> Seq<char> {
        match self {
            RemoveErrorModel::NotFound(n) => "jack '"@ + n + "' not found"@,
            RemoveErrorModel::PersistFailed(s) => "failed to persist config: "@ + s,
        }
    }
}

impl AddJackError {
    /// The reason in words.
    pub fn message(&self) -> (r: String)
        ensures
            r@ == self@.message(),
    {
        match self {
            AddJackError::InvalidName(n) => {
                let mut s = "invalid jack name '".to_owned();
                s.append(n.as_str());
                s.append("': must match [A-Za-z0-9_-]+, contain no '__', and be <= 40 chars");
                s
            },
            AddJackError::DuplicateName(n) => {
                let mut s = "a jack named '".to_owned();
                s.append(n.as_str());
                s.append("' already exists");
                s
            },
            AddJackError::MissingRequiredField(t) => t.clone(),
            AddJackError::PersistFailed(t) => {
                let mut s = "failed to persist config: ".to_owned();
                s.append(t.as_str());
                s
            },
        }
    }
}

impl RemoveJackError {
    /// The reason in words.
    pub fn message(&self) -> (r: String)
        ensures
            r@ == self@.message(),
    {
        match self {
            RemoveJackError::NotFound(n) => {
                let mut s = "jack '".to_owned();
                s.append(n.as_str());
                s.append("' not found");
                s
            },
            RemoveJackError::PersistFailed(t) => {
                let mut s = "failed to persist config: ".to_owned();
                s.append(t.as_str());
                s
            },
        }
    }
}

/// The word for a transport.
pub open spec fn transport_word(t: TransportModel) -> Seq<char> {
    match t {
        TransportModel::Stdio { .. } => "stdio"@,
        TransportModel::StreamableHttp { .. } => "streamable_http"@,
    }
}

/// The word for a transport.
pub fn transport_type_string(t: &JackTransport) -> (r: String)
    ensures
        r@ == transport_word(t@),
{
    match t {
        JackTransport::Stdio { .. } => "stdio".to_owned(),
        JackTransport::StreamableHttp { .. } => "streamable_http".to_owned(),
    }
}

/// What a transport lacks: a stdio jack needs a command, a remote one a URL.
pub open spec fn transport_lacks(t: TransportModel) -> Option<Seq<char>> {
    match t {
        TransportModel::Stdio { command, .. } => if command.len() == 0 {
            Some("stdio transport requires a non-empty 'command'"@)
        } else {
            None
        },
        TransportModel::StreamableHttp { url, .. } => if url.len() == 0 {
            Some("streamable-http transport requires a non-empty 'url'"@)
        } else {
            None
        },
    }
}

/// Check that a transport has what it needs.
pub fn validate_transport(transport: &JackTransport) -> (r: Result<(), AddJackError>)
    ensures
        r is Ok <==> transport_lacks(transport@) is None,
        r matches Err(e) ==> transport_lacks(transport@) is Some && e@ == AddErrorModel::MissingRequiredField(
            transport_lacks(transport@)->0,
        ),
{
    match transport {
        JackTransport::Stdio { command, .. } => {
            if command.as_str().is_empty() {
                Err(
                    AddJackError::MissingRequiredField(
                        "stdio transport requires a non-empty 'command'".to_owned(),
                    ),
                )
            } else {
                Ok(())
            }
        },
        JackTransport::StreamableHttp { url, .. } => {
            if url.as_str().is_empty() {
                Err(
                    AddJackError::MissingRequiredField(
                        "streamable-http transport requires a non-empty 'url'".to_owned(),
                    ),
                )
            } else {
                Ok(())
            }
        },
    }
}

/// Why a jack may not be added: its name is invalid, its transport lacks
/// something, or the name is taken, whichever comes first.
pub open spec fn add_error(c: ConfigModel, jack: JackModel) -> Option<AddErrorModel> {
    if !valid_jack_name(jack.name) {
        Some(AddErrorModel::InvalidName(jack.name))
    } else if transport_lacks(jack.transport) is Some {
        Some(AddErrorModel::MissingRequiredField(transport_lacks(jack.transport)->0))
    } else if has_jack(c.jacks, jack.name) {
        Some(AddErrorModel::DuplicateName(jack.name))
    } else {
        None
    }
}

/// The tools that stand under the name of a jack.
pub open spec fn tools_under(jack: Seq<char>) -> spec_fn((Seq<char>, Doc)) -> bool {
    |t: (Seq<char>, Doc)| t.0 == jack
}

proof fn lemma_announced(m: AppModel, jack: Seq<char>)
    ensures
        m.lifecycle_effects(jack).contains(EffectModel::Broadcast),
        m.lifecycle_effects(jack).push(EffectModel::NotifyStructure).contains(EffectModel::Broadcast),
{
    let e = m.lifecycle_effects(jack);
    let k: int = if m.lifecycle(jack) == LifecycleMove::Start {
        1
    } else {
        0
    };
    assert(e[k] == EffectModel::Broadcast);
    assert(e.push(EffectModel::NotifyStructure)[k] == EffectModel::Broadcast);
}

/// What has to happen to a jack's client.
#[derive(Clone, Copy, Debug, PartialEq, Eq, Structural)]
pub enum LifecycleMove {
    Start,
    Stop,
    Keep,
}

impl AppModel {
    /// What has to happen so that a jack runs exactly where somebody needs it.
    pub open spec fn lifecycle(self, jack: Seq<char>) -> LifecycleMove {
        if self.config.should_run(jack) && !running(self.upstream, jack) {
            LifecycleMove::Start
        } else if !self.config.should_run(jack) && running(self.upstream, jack) {
            LifecycleMove::Stop
        } else {
            LifecycleMove::Keep
        }
    }

    /// The effects of that. A jack is started before the change is announced,
    /// and stopped after it; where neither happens the change is announced all
    /// the same, because what a client sees may have changed.
    pub open spec fn lifecycle_effects(self, jack: Seq<char>) -> Seq<EffectModel> {
        match self.lifecycle(jack) {
            LifecycleMove::Start => seq![EffectModel::StartJack(jack), EffectModel::Broadcast],
            LifecycleMove::Stop => seq![EffectModel::Broadcast, EffectModel::StopJack(jack)],
            LifecycleMove::Keep => seq![EffectModel::Broadcast],
        }
    }

    /// The jacks that have to start.
    pub open spec fn to_start(self) -> Seq<Seq<char>> {
        jack_names(self.config.jacks).filter(|n: Seq<char>| self.lifecycle(n) == LifecycleMove::Start)
    }

    /// The jacks that have to stop.
    pub open spec fn to_stop(self) -> Seq<Seq<char>> {
        jack_names(self.config.jacks).filter(|n: Seq<char>| self.lifecycle(n) == LifecycleMove::Stop)
    }

    /// The effects that bring every jack in line: all starts, one announcement,
    /// all stops.
    pub open spec fn reconcile_effects(self) -> Seq<EffectModel> {
        self.to_start().map_values(|n: Seq<char>| EffectModel::StartJack(n)) + seq![EffectModel::Broadcast]
            + self.to_stop().map_values(|n: Seq<char>| EffectModel::StopJack(n))
    }

    /// The number of tools that a jack has on offer.
    pub open spec fn tool_count(self, jack: Seq<char>) -> nat {
        all_tools(self.upstream).filter(tools_under(jack)).len()
    }

    /// A jack in a listing.
    pub open spec fn summary(self, jack: JackModel) -> SummaryModel {
        SummaryModel {
            name: jack.name,
            patched: jack.patched,
            transport: transport_word(jack.transport),
            status: status_text(self.upstream, jack.name),
            tool_count: self.tool_count(jack.name),
        }
    }

    /// A jack in a listing, by its name.
    pub open spec fn summary_of(self, name: Seq<char>) -> SummaryModel {
        if has_jack(self.config.jacks, name) {
            self.summary(self.config.jacks[first_named(self.config.jacks, name)])
        } else {
            SummaryModel {
                name,
                patched: false,
                transport: Seq::empty(),
                status: status_text(self.upstream, name),
                tool_count: self.tool_count(name),
            }
        }
    }
}

/// The error line of a jack that failed to start.
pub open spec fn start_failed_event(name: Seq<char>, status: Seq<char>) -> Seq<char> {
    named_event("jack_start_failed"@, name) + " ("@ + status + ")"@
}

/// The effects that follow a report on a jack.
pub open spec fn report_effects(
    name: Seq<char>,
    status: Seq<char>,
    event: Seq<char>,
    notify: EffectModel,
) -> Seq<EffectModel> {
    if occurs_at(status, "failed:"@, 0) {
        seq![
            EffectModel::RequestError(start_failed_event(name, status)),
            EffectModel::RequestEvent(event),
            notify,
        ]
    } else {
        seq![EffectModel::RequestEvent(event), notify]
    }
}

fn report(name: &str, status: &str, event: String, notify: Effect) -> (r: Vec<Effect>)
    ensures
        views(r@) == report_effects(name@, status@, event@, notify@),
{
    let mut out: Vec<Effect> = Vec::new();
    if starts_with_text(status, "failed:") {
        let mut text = named_event_text("jack_start_failed", name);
        text.append(" (");
        text.append(status);
        text.append(")");
        out.push(Effect::RequestError(text));
    }
    out.push(Effect::RequestEvent(event));
    out.push(notify);
    assert(views(out@) =~= report_effects(name@, status@, event@, notify@));
    out
}

/// The answer to a toggle that changed nothing.
pub open spec fn toggle_refused(m: AppModel, jack: Seq<char>, saved: Result<(), Seq<char>>) -> Option<ToggleModel> {
    if !has_jack(m.config.jacks, jack) {
        Some(ToggleModel { patched: false, status: "unknown"@ })
    } else {
        match m.written(saved) {
            Ok(_) => None,
            Err(e) => Some(
                ToggleModel {
                    patched: m.config.global_patched(jack),
                    status: "failed to persist: "@ + e,
                },
            ),
        }
    }
}

impl AppState {
    /// The jacks as the tray shows them.
    pub fn jack_lines(&self) -> (r: Vec<JackLine>)
        ensures
            views(r@) == self@.config.jacks.map_values(
                |j: JackModel| LineModel { name: j.name, patched: j.patched },
            ),
    {
        let ghost goal = self@.config.jacks.map_values(
            |j: JackModel| LineModel { name: j.name, patched: j.patched },
        );
        let mut out: Vec<JackLine> = Vec::new();
        let mut i: usize = 0;
        assert(views(out@) =~= goal.subrange(0, 0));
        while i < self.config.jacks.len()
            invariant
                i <= self.config.jacks.len(),
                goal == self@.config.jacks.map_values(
                    |j: JackModel| LineModel { name: j.name, patched: j.patched },
                ),
                views(out@) == goal.subrange(0, i as int),
            decreases self.config.jacks.len() - i,
        {
            let ghost prev = views(out@);
            let j = &self.config.jacks[i];
            out.push(JackLine { name: j.name.clone(), patched: j.patched });
            assert(views(out@) =~= prev.push(goal[i as int]));
            i = i + 1;
            assert(views(out@) =~= goal.subrange(0, i as int));
        }
        assert(views(out@) =~= goal);
        out
    }

    /// What has to happen so that a jack runs exactly where somebody needs it.
    pub fn lifecycle_move(&self, jack_name: &str) -> (r: LifecycleMove)
        ensures
            r == self@.lifecycle(jack_name@),
    {
        let should_run = self.config.should_run_jack(jack_name);
        let is_running = self.upstream.is_jack_running(jack_name);
        if should_run && !is_running {
            LifecycleMove::Start
        } else if !should_run && is_running {
            LifecycleMove::Stop
        } else {
            LifecycleMove::Keep
        }
    }

    fn lifecycle_steps(&self, jack_name: &str) -> (r: Vec<Effect>)
        ensures
            views(r@) == self@.lifecycle_effects(jack_name@),
    {
        match self.lifecycle_move(jack_name) {
            LifecycleMove::Start => effects_2(Effect::StartJack(jack_name.to_owned()), Effect::Broadcast),
            LifecycleMove::Stop => effects_2(Effect::Broadcast, Effect::StopJack(jack_name.to_owned())),
            LifecycleMove::Keep => effects_1(Effect::Broadcast),
        }
    }

    /// The jacks whose client has to make the move `what`, in display order.
    fn jacks_to(&self, what: LifecycleMove) -> (r: Vec<String>)
        ensures
            texts(r@) == jack_names(self@.config.jacks).filter(|n: Seq<char>| self@.lifecycle(n) == what),
    {
        let names = self.config.jack_names();
        let ghost all = jack_names(self@.config.jacks);
        let ghost pred = |n: Seq<char>| self@.lifecycle(n) == what;
        let mut out: Vec<String> = Vec::new();
        proof {
            lemma_filter_none(all, pred);
            assert(texts(out@) =~= Seq::<Seq<char>>::empty());
        }
        let mut i: usize = 0;
        while i < names.len()
            invariant
                i <= names.len(),
                texts(names@) == all,
                pred == (|n: Seq<char>| self@.lifecycle(n) == what),
                texts(out@) == all.subrange(0, i as int).filter(pred),
            decreases names.len() - i,
        {
            let ghost prev = texts(out@);
            assert(all[i as int] == names@[i as int]@);
            proof {
                lemma_filter_step(all, pred, i as int);
            }
            if self.lifecycle_move(names[i].as_str()) == what {
                out.push(names[i].clone());
                assert(texts(out@) =~= prev.push(all[i as int]));
            }
            i = i + 1;
        }
        assert(all.subrange(0, all.len() as int) =~= all);
        out
    }

    /// What brings every jack in line with the configuration: all that has to
    /// start, then one announcement, then all that has to stop.
    pub fn reconcile_all_jack_lifecycles(&self) -> (r: Vec<Effect>)
        ensures
            views(r@) == self@.reconcile_effects(),
    {
        let starts = self.jacks_to(LifecycleMove::Start);
        let stops = self.jacks_to(LifecycleMove::Stop);
        let ghost head = self@.to_start().map_values(|n: Seq<char>| EffectModel::StartJack(n));
        let ghost tail = self@.to_stop().map_values(|n: Seq<char>| EffectModel::StopJack(n));
        let mut out: Vec<Effect> = Vec::new();
        assert(views(out@) =~= head.subrange(0, 0));
        let mut i: usize = 0;
        while i < starts.len()
            invariant
                i <= starts.len(),
                texts(starts@) == self@.to_start(),
                head == self@.to_start().map_values(|n: Seq<char>| EffectModel::StartJack(n)),
                views(out@) == head.subrange(0, i as int),
            decreases starts.len() - i,
        {
            let ghost prev = views(out@);
            assert(texts(starts@)[i as int] == starts@[i as int]@);
            out.push(Effect::StartJack(starts[i].clone()));
            assert(views(out@) =~= prev.push(head[i as int]));
            i = i + 1;
            assert(views(out@) =~= head.subrange(0, i as int));
        }
        let ghost prev = views(out@);
        out.push(Effect::Broadcast);
        let ghost base = head + seq![EffectModel::Broadcast];
        assert(views(out@) =~= prev.push(EffectModel::Broadcast));
        assert(head.subrange(0, head.len() as int) =~= head);
        assert(views(out@) =~= base + tail.subrange(0, 0));
        let mut j: usize = 0;
        while j < stops.len()
            invariant
                j <= stops.len(),
                texts(stops@) == self@.to_stop(),
                tail == self@.to_stop().map_values(|n: Seq<char>| EffectModel::StopJack(n)),
                views(out@) == base + tail.subrange(0, j as int),
            decreases stops.len() - j,
        {
            let ghost prev = views(out@);
            assert(texts(stops@)[j as int] == stops@[j as int]@);
            out.push(Effect::StopJack(stops[j].clone()));
            assert(views(out@) =~= prev.push(tail[j as int]));
            j = j + 1;
            assert(views(out@) =~= base + tail.subrange(0, j as int));
        }
        assert(tail.subrange(0, tail.len() as int) =~= tail);
        out
    }

    /// The number of tools that a jack has on offer.
    fn tool_count(&self, name: &str) -> (r: usize)
        ensures
            r == self@.tool_count(name@),
    {
        let tools = self.upstream.cached_tools();
        let ghost shown = |e: (String, Json)| (e.0@, e.1@);
        let ghost all = all_tools(self.upstream@);
        let ghost pred = tools_under(name@);
        proof {
            lemma_filter_none(all, pred);
        }
        let mut n: usize = 0;
        let mut i: usize = 0;
        while i < tools.len()
            invariant
                i <= tools.len(),
                n <= i,
                shown == (|e: (String, Json)| (e.0@, e.1@)),
                tools@.map_values(shown) == all,
                pred == tools_under(name@),
                n == all.subrange(0, i as int).filter(pred).len(),
            decreases tools.len() - i,
        {
            assert(all[i as int] == (tools@[i as int].0@, tools@[i as int].1@));
            proof {
                lemma_filter_step(all, pred, i as int);
            }
            if same_text(tools[i].0.as_str(), name) {
                n = n + 1;
            }
            i = i + 1;
        }
        assert(all.subrange(0, all.len() as int) =~= all);
        n
    }

    /// Every jack with its switch, its transport, its status and the number of
    /// its tools.
    pub fn list_jacks(&self) -> (r: Vec<JackSummary>)
        ensures
            views(r@) == self@.config.jacks.map_values(|j: JackModel| self@.summary(j)),
    {
        let ghost goal = self@.config.jacks.map_values(|j: JackModel| self@.summary(j));
        let mut out: Vec<JackSummary> = Vec::new();
        let mut i: usize = 0;
        assert(views(out@) =~= goal.subrange(0, 0));
        while i < self.config.jacks.len()
            invariant
                i <= self.config.jacks.len(),
                goal == self@.config.jacks.map_values(|j: JackModel| self@.summary(j)),
                views(out@) == goal.subrange(0, i as int),
            decreases self.config.jacks.len() - i,
        {
            let ghost prev = views(out@);
            let j = &self.config.jacks[i];
            let one = JackSummary {
                name: j.name.clone(),
                patched: j.patched,
                transport: transport_type_string(&j.transport),
                status: self.upstream.status_string(j.name.as_str()),
                tool_count: self.tool_count(j.name.as_str()),
            };
            assert(one@ == goal[i as int]);
            out.push(one);
            assert(views(out@) =~= prev.push(goal[i as int]));
            i = i + 1;
            assert(views(out@) =~= goal.subrange(0, i as int));
        }
        assert(views(out@) =~= goal);
        out
    }

    /// One jack of the listing.
    pub fn jack_summary(&self, name: &str) -> (r: JackSummary)
        ensures
            r@ == self@.summary_of(name@),
    {
        let tool_count: usize = self.tool_count(name);
        let status = self.upstream.status_string(name);
        match find_jack(&self.config.jacks, name) {
            Some(i) => {
                let j = &self.config.jacks[i];
                proof {
                    lemma_first_named(self@.config.jacks, name@);
                    assert(self@.config.jacks[i as int] == j@);
                }
                JackSummary {
                    name: name.to_owned(),
                    patched: j.patched,
                    transport: transport_type_string(&j.transport),
                    status,
                    tool_count,
                }
            },
            None => JackSummary { name: name.to_owned(), patched: false, transport: String::new(), status, tool_count },
        }
    }

    /// What is to be written when a jack is switched.
    pub fn set_patched_write(&self, jack_name: &str, patched: bool) -> (r: Write)
        ensures
            r@ == self@.plan(
                has_jack(self@.config.jacks, jack_name@),
                self@.config.with_patched(jack_name@, patched),
            ),
            r@ matches WriteModel::Config(c) ==> switched_on(c, jack_name@) == patched && c.jacks.len()
                == self@.config.jacks.len(),
    {
        proof {
            a_switch_is_what_it_was_switched_to(self@.config, jack_name@, patched);
        }
        let found = find_jack(&self.config.jacks, jack_name).is_some();
        self.planned(found, self.config.with_patched(jack_name, patched))
    }

    /// Switch a jack globally: the one place where a global switch changes.
    /// Either the switch is refused and the answer says where it stands, or the
    /// effects are to be carried out and [`AppState::toggle_report`] answers.
    pub fn set_patched(&mut self, jack_name: &str, patched: bool, saved: Result<(), String>) -> (r: (
        Option<ToggleResult>,
        Vec<Effect>,
    ))
        ensures
            final(self)@ == old(self)@.committed(
                has_jack(old(self)@.config.jacks, jack_name@),
                old(self)@.config.with_patched(jack_name@, patched),
                saving(saved),
            ),
            crate::name_map::view_opt(r.0) == toggle_refused(old(self)@, jack_name@, saving(saved)),
            views(r.1@) == (if toggle_refused(old(self)@, jack_name@, saving(saved)) is Some {
                Seq::empty()
            } else {
                final(self)@.lifecycle_effects(jack_name@)
            }),
            old(self)@.config_error is None && saved is Ok && (exists|i: int|
                0 <= i < old(self)@.config.jacks.len() && (#[trigger] old(self)@.config.jacks[i]).name == jack_name@) ==> {
                &&& r.0 is None
                &&& switched_on(final(self)@.config, jack_name@) == patched
                &&& views(r.1@).contains(EffectModel::Broadcast)
            },
            saved is Err ==> final(self)@ == old(self)@,
            final(self)@.config.client_overrides == old(self)@.config.client_overrides,
            final(self)@.config.forbidden_clients == old(self)@.config.forbidden_clients,
            final(self)@.sessions == old(self)@.sessions,
    {
        proof {
            a_switch_is_what_it_was_switched_to(self@.config, jack_name@, patched);
            lemma_configured(self@.config, jack_name@);
            let after = self@.with_config(self@.config.with_patched(jack_name@, patched));
            lemma_announced(after, jack_name@);
        }
        let found = find_jack(&self.config.jacks, jack_name).is_some();
        if !found {
            return (Some(ToggleResult { patched: false, status: "unknown".to_owned() }), effects_0());
        }
        let candidate = self.config.with_patched(jack_name, patched);
        match self.commit(true, candidate, saved) {
            Ok(_) => (None, self.lifecycle_steps(jack_name)),
            Err(e) => {
                let mut status = "failed to persist: ".to_owned();
                status.append(e.as_str());
                (Some(ToggleResult { patched: self.config.global_patched(jack_name), status }), effects_0())
            },
        }
    }

    /// The answer to a switch once its effects are carried out.
    pub fn toggle_report(&self, jack_name: &str, patched: bool) -> (r: (ToggleResult, Vec<Effect>))
        ensures
            r.0@ == (ToggleModel { patched, status: status_text(self@.upstream, jack_name@) }),
            views(r.1@) == report_effects(
                jack_name@,
                status_text(self@.upstream, jack_name@),
                named_event("toggle_jack"@, jack_name@) + " -> patched="@ + bool_word(patched),
                EffectModel::NotifyState,
            ),
    {
        let status = self.upstream.status_string(jack_name);
        let mut event = named_event_text("toggle_jack", jack_name);
        event.append(" -> patched=");
        event.append(bool_text(patched));
        let effects = report(jack_name, status.as_str(), event, Effect::NotifyState);
        (ToggleResult { patched, status }, effects)
    }

    /// Why a jack may not be added.
    pub fn check_new_jack(&self, input: &JackConfigInput) -> (r: Result<(), AddJackError>)
        ensures
            r is Ok <==> add_error(self@.config, input@) is None,
            r matches Err(e) ==> add_error(self@.config, input@) == Some(e@),
    {
        if !is_valid_jack_name(input.name.as_str()) {
            return Err(AddJackError::InvalidName(input.name.clone()));
        }
        match validate_transport(&input.transport) {
            Ok(_) => {},
            Err(e) => {
                return Err(e);
            },
        }
        if find_jack(&self.config.jacks, input.name.as_str()).is_some() {
            return Err(AddJackError::DuplicateName(input.name.clone()));
        }
        Ok(())
    }

    fn new_jack(input: &JackConfigInput) -> (r: JackConfig)
        ensures
            r@ == input@,
    {
        JackConfig {
            name: input.name.clone(),
            patched: input.patched,
            transport: input.transport.replica(),
            sharing: input.sharing,
            tools: None,
        }
    }

    /// What is to be written when a jack is added.
    pub fn add_jack_write(&self, input: &JackConfigInput) -> (r: Write)
        ensures
            r@ == self@.plan(
                add_error(self@.config, input@) is None,
                self@.config.with_jack(input@),
            ),
    {
        let clean = self.check_new_jack(input).is_ok();
        let jack = AppState::new_jack(input);
        self.planned(clean, self.config.with_jack(&jack))
    }

    /// Add a jack, and start it where it is switched on. A jack that fails to
    /// start stays in the configuration. [`AppState::add_report`] answers once
    /// the effects are carried out.
    pub fn add_jack(&mut self, input: &JackConfigInput, saved: Result<(), String>) -> (r: Result<
        Vec<Effect>,
        AddJackError,
    >)
        ensures
            final(self)@ == old(self)@.committed(
                add_error(old(self)@.config, input@) is None,
                old(self)@.config.with_jack(input@),
                saving(saved),
            ),
            match r {
                Ok(effects) => {
                    &&& add_error(old(self)@.config, input@) is None
                    &&& old(self)@.written(saving(saved)) is Ok
                    &&& views(effects@) == if input@.patched {
                        seq![EffectModel::StartJack(input@.name), EffectModel::Broadcast]
                    } else {
                        seq![EffectModel::Broadcast]
                    }
                },
                Err(e) => match add_error(old(self)@.config, input@) {
                    Some(why) => e@ == why,
                    None => old(self)@.written(saving(saved)) is Err && e@ == AddErrorModel::PersistFailed(
                        old(self)@.written(saving(saved))->Err_0,
                    ),
                },
            },
            old(self)@.config_error is None && saved is Ok && add_error(old(self)@.config, input@) is None ==> {
                &&& r is Ok
                &&& final(self)@.config.jacks == old(self)@.config.jacks.push(input@)
                &&& views(r->Ok_0@).contains(EffectModel::Broadcast)
                &&& input@.patched ==> views(r->Ok_0@).contains(EffectModel::StartJack(input@.name))
            },
            saved is Err ==> final(self)@ == old(self)@,
    {
        proof {
            assert(seq![EffectModel::StartJack(input@.name), EffectModel::Broadcast][0] == EffectModel::StartJack(input@.name));
            assert(seq![EffectModel::StartJack(input@.name), EffectModel::Broadcast][1] == EffectModel::Broadcast);
            assert(seq![EffectModel::Broadcast][0] == EffectModel::Broadcast);
        }
        match self.check_new_jack(input) {
            Ok(_) => {},
            Err(e) => {
                return Err(e);
            },
        }
        let jack = AppState::new_jack(input);
        let candidate = self.config.with_jack(&jack);
        match self.commit(true, candidate, saved) {
            Ok(_) => {
                if input.patched {
                    Ok(effects_2(Effect::StartJack(input.name.clone()), Effect::Broadcast))
                } else {
                    Ok(effects_1(Effect::Broadcast))
                }
            },
            Err(e) => Err(AddJackError::PersistFailed(e)),
        }
    }

    /// The answer to an addition once its effects are carried out.
    pub fn add_report(&self, name: &str) -> (r: (JackSummary, Vec<Effect>))
        ensures
            r.0@ == self@.summary_of(name@),
            views(r.1@) == report_effects(
                name@,
                self@.summary_of(name@).status,
                named_event("add_jack"@, name@) + " ("@ + self@.summary_of(name@).transport + ")"@,
                EffectModel::NotifyStructure,
            ),
    {
        let summary = self.jack_summary(name);
        let mut event = named_event_text("add_jack", name);
        event.append(" (");
        event.append(summary.transport.as_str());
        event.append(")");
        let effects = report(name, summary.status.as_str(), event, Effect::NotifyStructure);
        (summary, effects)
    }

    /// Begin to remove a jack: it is stopped, whatever comes of the rest. The
    /// client that it had is to be shut down.
    pub fn begin_remove_jack(&mut self, name: &str) -> (r: Result<Option<u64>, RemoveJackError>)
        ensures
            match r {
                Ok(client) => {
                    &&& has_jack(old(self)@.config.jacks, name@)
                    &&& client == client_of(old(self)@.upstream, name@)
                    &&& final(self)@ == (AppModel { upstream: stopped(old(self)@.upstream, name@), ..old(self)@ })
                },
                Err(e) => {
                    &&& !has_jack(old(self)@.config.jacks, name@)
                    &&& e@ == RemoveErrorModel::NotFound(name@)
                    &&& final(self)@ == old(self)@
                },
            },
    {
        if find_jack(&self.config.jacks, name).is_none() {
            return Err(RemoveJackError::NotFound(name.to_owned()));
        }
        let client: Option<u64> = self.upstream.stop_jack(name);
        Ok(client)
    }

    /// What is to be written when a jack is removed.
    pub fn remove_jack_write(&self, name: &str) -> (r: Write)
        ensures
            r@ == self@.plan(has_jack(self@.config.jacks, name@), self@.config.without_jack(name@)),
    {
        let found = find_jack(&self.config.jacks, name).is_some();
        self.planned(found, self.config.without_jack(name))
    }

    /// Remove a jack from the configuration and from every own list.
    pub fn remove_jack(&mut self, name: &str, saved: Result<(), String>) -> (r: Result<Vec<Effect>, RemoveJackError>)
        ensures
            final(self)@ == old(self)@.committed(
                has_jack(old(self)@.config.jacks, name@),
                old(self)@.config.without_jack(name@),
                saving(saved),
            ),
            match r {
                Ok(effects) => {
                    &&& has_jack(old(self)@.config.jacks, name@)
                    &&& old(self)@.written(saving(saved)) is Ok
                    &&& views(effects@) == seq![
                        EffectModel::Broadcast,
                        EffectModel::RequestEvent(named_event("remove_jack"@, name@)),
                        EffectModel::NotifyStructure,
                    ]
                },
                Err(e) => if has_jack(old(self)@.config.jacks, name@) {
                    old(self)@.written(saving(saved)) is Err && e@ == RemoveErrorModel::PersistFailed(
                        old(self)@.written(saving(saved))->Err_0,
                    )
                } else {
                    e@ == RemoveErrorModel::NotFound(name@)
                },
            },
            old(self)@.config_error is None && saved is Ok && (exists|i: int|
                0 <= i < old(self)@.config.jacks.len() && (#[trigger] old(self)@.config.jacks[i]).name == name@) ==> {
                &&& r is Ok
                &&& forall|i: int|
                    0 <= i < final(self)@.config.jacks.len() ==> (#[trigger] final(self)@.config.jacks[i]).name != name@
                &&& views(r->Ok_0@).contains(EffectModel::Broadcast)
            },
            saved is Err ==> final(self)@ == old(self)@,
    {
        proof {
            lemma_configured(self@.config, name@);
            let after = self@.config.without_jack(name@).jacks;
            assert forall|i: int| 0 <= i < after.len() implies (#[trigger] after[i]).name != name@ by {
                crate::config::laws::removing_removes_one_jack(self@.config, name@, after[i], name@, name@);
            }
            let told = seq![
                EffectModel::Broadcast,
                EffectModel::RequestEvent(named_event("remove_jack"@, name@)),
                EffectModel::NotifyStructure,
            ];
            assert(told[0] == EffectModel::Broadcast);
        }
        if find_jack(&self.config.jacks, name).is_none() {
            return Err(RemoveJackError::NotFound(name.to_owned()));
        }
        let candidate = self.config.without_jack(name);
        match self.commit(true, candidate, saved) {
            Ok(_) => Ok(
                super::state::effects_3(
                    Effect::Broadcast,
                    Effect::RequestEvent(named_event_text("remove_jack", name)),
                    Effect::NotifyStructure,
                ),
            ),
            Err(e) => Err(RemoveJackError::PersistFailed(e)),
        }
    }

    /// What is to be written when a jack is switched for one client.
    pub fn set_client_override_write(&self, client_name: &str, jack_name: &str, patched: bool) -> (r: Write)
        ensures
            r@ == self@.plan(
                has_jack(self@.config.jacks, jack_name@),
                self@.config.with_override(client_name@, jack_name@, patched),
            ),
            r@ matches WriteModel::Config(c) ==> {
                &&& c.client_overrides.contains_key(client_name@)
                &&& c.client_overrides[client_name@].enabled
                &&& c.client_overrides[client_name@].jacks.get(jack_name@) == Some(patched)
                &&& c.jacks == self@.config.jacks
            },
    {
        proof {
            crate::config::laws::own_switch_changes_one_entry(
                self@.config,
                client_name@,
                jack_name@,
                patched,
                jack_name@,
                client_name@,
                0,
            );
        }
        let found = find_jack(&self.config.jacks, jack_name).is_some();
        self.planned(found, self.config.with_override(client_name, jack_name, patched))
    }

    /// Switch a jack for one client, which uses a list of its own from then on.
    /// Returns whether the client may reach the jack now.
    pub fn set_client_override(
        &mut self,
        client_name: &str,
        jack_name: &str,
        patched: bool,
        saved: Result<(), String>,
    ) -> (r: (Result<bool, String>, Vec<Effect>))
        ensures
            final(self)@ == old(self)@.committed(
                has_jack(old(self)@.config.jacks, jack_name@),
                old(self)@.config.with_override(client_name@, jack_name@, patched),
                saving(saved),
            ),
            match r.0 {
                Ok(on) => {
                    &&& has_jack(old(self)@.config.jacks, jack_name@)
                    &&& old(self)@.written(saving(saved)) is Ok
                    &&& on == final(self)@.config.grants(jack_name@, Some(client_name@))
                    &&& views(r.1@) == final(self)@.lifecycle_effects(jack_name@).push(
                        EffectModel::NotifyStructure,
                    )
                },
                Err(e) => {
                    &&& views(r.1@) == Seq::<EffectModel>::empty()
                    &&& if has_jack(old(self)@.config.jacks, jack_name@) {
                        old(self)@.written(saving(saved)) == Err::<(), Seq<char>>(e@)
                    } else {
                        e@ == "jack '"@ + jack_name@ + "' not found"@
                    }
                },
            },
            old(self)@.config_error is None && saved is Ok && (exists|i: int|
                0 <= i < old(self)@.config.jacks.len() && (#[trigger] old(self)@.config.jacks[i]).name == jack_name@) ==> {
                let own = final(self)@.config.client_overrides;
                &&& r.0 is Ok
                &&& own.contains_key(client_name@)
                &&& own[client_name@].enabled
                &&& own[client_name@].jacks.get(jack_name@) == Some(patched)
                &&& views(r.1@).contains(EffectModel::Broadcast)
            },
            saved is Err ==> final(self)@ == old(self)@,
            final(self)@.config.jacks == old(self)@.config.jacks,
    {
        proof {
            lemma_configured(self@.config, jack_name@);
            crate::config::laws::own_switch_changes_one_entry(
                self@.config,
                client_name@,
                jack_name@,
                patched,
                jack_name@,
                client_name@,
                0,
            );
            let after = self@.with_config(self@.config.with_override(client_name@, jack_name@, patched));
            lemma_announced(after, jack_name@);
        }
        if find_jack(&self.config.jacks, jack_name).is_none() {
            let mut s = "jack '".to_owned();
            s.append(jack_name);
            s.append("' not found");
            return (Err(s), effects_0());
        }
        let candidate = self.config.with_override(client_name, jack_name, patched);
        match self.commit(true, candidate, saved) {
            Ok(_) => {
                let mut effects = self.lifecycle_steps(jack_name);
                let ghost prev = views(effects@);
                effects.push(Effect::NotifyStructure);
                assert(views(effects@) =~= prev.push(EffectModel::NotifyStructure));
                (Ok(self.config.effective_patched(jack_name, Some(client_name))), effects)
            },
            Err(e) => (Err(e), effects_0()),
        }
    }
}

pub(crate) proof fn lemma_tool_count(m: AppModel, name: Seq<char>)
    requires
        m.upstream.dom().finite(),
    ensures
        m.tool_count(name) == (if crate::upstream::manager::offers(m.upstream, name) {
            m.upstream[name].tool_cache.len()
        } else {
            0
        }),
{
    let names = crate::name_map::in_order(m.upstream.dom());
    crate::name_map::in_order_lists(m.upstream.dom());
    crate::name_map::lemma_ascending_distinct(names);
    lemma_count(m.upstream, names, name, tools_under(name));
    assert(names.contains(name) <==> names.to_set().contains(name));
    assert(names.to_set().contains(name) <==> m.upstream.contains_key(name));
}

proof fn lemma_count(rts: Map<Seq<char>, crate::upstream::manager::RuntimeModel>, names: Seq<Seq<char>>, jack: Seq<char>, mine: spec_fn((Seq<char>, Doc)) -> bool)
    requires
        forall|i: int, j: int| 0 <= i < names.len() && 0 <= j < names.len() && names[i] == names[j] ==> i == j,
        forall|t: (Seq<char>, Doc)| #[trigger] mine(t) == (t.0 == jack),
    ensures
        crate::upstream::manager::tools_of(rts, names).filter(mine).len() == (if names.contains(
            jack,
        ) && crate::upstream::manager::offers(rts, jack) {
            rts[jack].tool_cache.len()
        } else {
            0
        }),
    decreases names.len(),
{
    if names.len() == 0 {
        reveal(Seq::filter);
    } else {
        let front = names.drop_last();
        let last = names.last();
        assert forall|i: int, j: int| 0 <= i < front.len() && 0 <= j < front.len() && front[i] == front[j] implies i
            == j by {
            assert(front[i] == names[i] && front[j] == names[j]);
        }
        lemma_count(rts, front, jack, mine);
        let before = crate::upstream::manager::tools_of(rts, front);
        assert(names.contains(jack) <==> front.contains(jack) || last == jack) by {
            if front.contains(jack) {
                let i = choose|i: int| 0 <= i < front.len() && front[i] == jack;
                assert(names[i] == jack);
            }
            if last == jack {
                assert(names[names.len() - 1] == jack);
            }
            if names.contains(jack) {
                let i = choose|i: int| 0 <= i < names.len() && names[i] == jack;
                if i < front.len() {
                    assert(front[i] == jack);
                }
            }
        }
        assert(last == jack ==> !front.contains(jack)) by {
            if last == jack && front.contains(jack) {
                let i = choose|i: int| 0 <= i < front.len() && front[i] == jack;
                assert(names[i] == names[names.len() - 1]);
            }
        }
        if crate::upstream::manager::offers(rts, last) {
            let more = crate::upstream::manager::named_tools(last, rts[last].tool_cache);
            Seq::filter_distributes_over_add(before, more, mine);
            lemma_all_or_none(more, mine, last == jack);
        }
    }
}

proof fn lemma_all_or_none<A>(s: Seq<A>, pred: spec_fn(A) -> bool, all: bool)
    requires
        forall|i: int| 0 <= i < s.len() ==> pred(#[trigger] s[i]) == all,
    ensures
        s.filter(pred).len() == (if all {
            s.len()
        } else {
            0
        }),
    decreases s.len(),
{
    reveal(Seq::filter);
    if s.len() > 0 {
        let t = s.drop_last();
        assert forall|i: int| 0 <= i < t.len() implies pred(#[trigger] t[i]) == all by {
            assert(t[i] == s[i]);
        }
        lemma_all_or_none(t, pred, all);
        assert(pred(s.last()) == all);
    }
}

} // verus!
