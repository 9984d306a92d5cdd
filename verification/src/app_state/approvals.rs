//! New clients: noting them, asking the user about them, and keeping track of
//! when they were last seen.

use vstd::prelude::*;
#[allow(unused_imports)]
use vstd::string::*;

use super::state::{effects_0, effects_1, saving, AppModel, AppState, Effect, EffectModel, Write, WriteModel};
use crate::config::changes::{drop_name, has_seen, names_without, newly_seen, other_than};
use crate::config::grants::{list_has, name_of};
use crate::config::schema::ConfigModel;
use crate::name_map::{views, NameMap, Replica};
use crate::text::texts;

verus! {

/// A client's last sighting is refreshed at most once in this many seconds.
pub const LAST_SEEN_THROTTLE_SECS: u64 = 60;

/// `chrono::Local::now().to_rfc3339()`: the local time as text. Nothing is known
/// of its value.
#[verifier::external_body]
fn local_time() -> (r: String) {
    chrono::Local::now().to_rfc3339()
}

/// What a connecting client has to wait for.
#[derive(Clone, Copy, Debug, PartialEq, Eq, Structural)]
pub enum ApprovalStep {
    /// Nothing: an earlier decision stands, or none is needed.
    Proceed,
    /// Nothing, but the client is to be noted as seen.
    Record,
    /// The user, who is to be asked now.
    Ask,
    /// The user, who is being asked already.
    Join,
}

impl AppModel {
    /// What a connecting client has to wait for. With approval off it is noted
    /// unasked. With approval on, a client that is neither seen nor denied
    /// waits for the user, who is asked once per client.
    pub open spec fn approval(self, client: Seq<char>) -> ApprovalStep {
        if client.len() == 0 || self.config.knows(client) || self.config.forbids(Some(client)) {
            ApprovalStep::Proceed
        } else if !self.config.require_approval_for_new_clients {
            ApprovalStep::Record
        } else if self.pending_approvals.contains(client) {
            ApprovalStep::Join
        } else {
            ApprovalStep::Ask
        }
    }

    /// Whether the user's decision on a client changes the configuration.
    pub open spec fn decision_changes(self, client: Seq<char>, allowed: bool) -> bool {
        if allowed {
            !self.config.knows(client) || self.config.forbids(Some(client))
        } else {
            !self.config.forbids(Some(client))
        }
    }

    /// The state after the user decided on a client. The decision is committed
    /// where it was saved; and a denial is committed even where it was not, so
    /// that a denied client is not let in because a disk was full.
    pub open spec fn decided(
        self,
        client: Seq<char>,
        version: Option<Seq<char>>,
        now: Seq<char>,
        allowed: bool,
        saved: Result<(), Seq<char>>,
    ) -> AppModel {
        AppModel {
            config: if self.decision_changes(client, allowed) && (!allowed || self.written(saved) is Ok) {
                self.config.with_decision(client, version, now, allowed)
            } else {
                self.config
            },
            pending_approvals: names_without(self.pending_approvals, client),
            ..self
        }
    }

    /// The effects of that: whoever waits is told, and where the configuration
    /// was to change everything is brought in line.
    pub open spec fn decision_effects(self, client: Seq<char>, allowed: bool) -> Seq<EffectModel> {
        let told = if self.pending_approvals.contains(client) {
            seq![EffectModel::AnswerApproval { name: client, allowed }]
        } else {
            Seq::empty()
        };
        if self.decision_changes(client, allowed) {
            told + seq![EffectModel::NotifyStructure, EffectModel::ReconcileAll]
        } else {
            told
        }
    }

    /// Whether a client is to be noted as seen.
    pub open spec fn is_new(self, client: Seq<char>) -> bool {
        client.len() > 0 && !self.config.knows(client)
    }

    /// Whether it is too soon to refresh a client's last sighting again.
    pub open spec fn touched_lately(self, client: Seq<char>, secs: u64) -> bool {
        self.last_seen_touch.contains_key(client) && secs - self.last_seen_touch[client] < 60
    }
}

impl AppState {
    /// Note a client that connects for the first time, at the time `now`. A
    /// client that is known already is never noted again. What is to be written
    /// is the list of observed clients, and not the configuration.
    pub fn record_seen_client_at(&mut self, name: &str, version: Option<&str>, now: &str) -> (r: (Write, Vec<Effect>))
        ensures
            final(self)@ == (if old(self)@.is_new(name@) {
                old(self)@.with_config(old(self)@.config.with_seen(name@, name_of(version), now@))
            } else {
                old(self)@
            }),
            r.0@ == (if old(self)@.is_new(name@) {
                old(self)@.state_write(old(self)@.config.with_seen(name@, name_of(version), now@))
            } else {
                WriteModel::Nothing
            }),
            views(r.1@) == (if old(self)@.is_new(name@) {
                seq![EffectModel::NotifyStructure]
            } else {
                Seq::empty()
            }),
    {
        if name.is_empty() || self.config.knows(name) {
            return (Write::Nothing, effects_0());
        }
        let next = self.config.with_seen(name, version, now);
        let write = self.persist_state(next.replica());
        self.config = next;
        (write, effects_1(Effect::NotifyStructure))
    }

    /// Note a client that connects for the first time.
    pub fn record_seen_client(&mut self, name: &str, version: Option<&str>) -> (r: (Write, Vec<Effect>))
        ensures
            !old(self)@.is_new(name@) ==> final(self)@ == old(self)@ && r.0@ is Nothing && views(r.1@)
                == Seq::<EffectModel>::empty(),
            old(self)@.is_new(name@) ==> views(r.1@) == seq![EffectModel::NotifyStructure] && exists|now: Seq<char>| {
                &&& #[trigger] old(self)@.with_config(old(self)@.config.with_seen(name@, name_of(version), now))
                    == final(self)@
                &&& r.0@ == old(self)@.state_write(old(self)@.config.with_seen(name@, name_of(version), now))
            },
    {
        let now = local_time();
        let ghost whole = self@;
        let r = self.record_seen_client_at(name, version, now.as_str());
        assert(whole.is_new(name@) ==> whole.with_config(whole.config.with_seen(name@, name_of(version), now@))
            == self@);
        r
    }

    /// Begin to refresh a known client's last sighting, at most once a minute.
    /// `secs` is the reading of a monotonic clock, `now` the time as text. What
    /// is to be written is the list of observed clients.
    pub fn touch_client_last_seen_at(&mut self, name: &str, secs: u64, now: &str) -> (r: Write)
        ensures
            final(self)@ == (if old(self)@.touched_lately(name@, secs) {
                old(self)@
            } else {
                AppModel { last_seen_touch: old(self)@.last_seen_touch.insert(name@, secs), ..old(self)@ }
            }),
            r@ == (if old(self)@.touched_lately(name@, secs) || !old(self)@.config.knows(name@) {
                WriteModel::Nothing
            } else {
                old(self)@.state_write(old(self)@.config.with_last_seen(name@, now@))
            }),
    {
        let ghost whole = self@;
        let lately = match self.last_seen_touch.get(name) {
            Some(prev) => secs < *prev || secs - *prev < LAST_SEEN_THROTTLE_SECS,
            None => false,
        };
        if lately {
            return Write::Nothing;
        }
        let mut m: NameMap<u64> = NameMap::new();
        core::mem::swap(&mut m, &mut self.last_seen_touch);
        self.last_seen_touch = m.put(name.to_owned(), secs);
        if !self.config.knows(name) {
            return Write::Nothing;
        }
        self.persist_state(self.config.with_last_seen(name, now))
    }

    /// Begin to refresh a known client's last sighting. Returns the time that
    /// [`AppState::touch_client_saved`] commits.
    pub fn touch_client_last_seen(&mut self, name: &str, secs: u64) -> (r: (Write, String))
        ensures
            final(self)@ == (if old(self)@.touched_lately(name@, secs) {
                old(self)@
            } else {
                AppModel { last_seen_touch: old(self)@.last_seen_touch.insert(name@, secs), ..old(self)@ }
            }),
            r.0@ == (if old(self)@.touched_lately(name@, secs) || !old(self)@.config.knows(name@) {
                WriteModel::Nothing
            } else {
                old(self)@.state_write(old(self)@.config.with_last_seen(name@, r.1@))
            }),
    {
        let now = local_time();
        let write = self.touch_client_last_seen_at(name, secs, now.as_str());
        (write, now)
    }

    /// Commit a refreshed last sighting where it was saved. A client that is not
    /// known is left alone, so nobody is brought back this way.
    pub fn touch_client_saved(&mut self, name: &str, now: &str, saved: Result<(), String>) -> (r: Vec<Effect>)
        ensures
            final(self)@ == (if old(self)@.state_written(saving(saved)) is Ok {
                old(self)@.with_config(old(self)@.config.with_last_seen(name@, now@))
            } else {
                old(self)@
            }),
            views(r@) == (if old(self)@.state_written(saving(saved)) is Ok {
                seq![EffectModel::NotifyState]
            } else {
                Seq::empty()
            }),
    {
        match self.state_persisted(saved) {
            Ok(_) => {
                self.config = self.config.with_last_seen(name, now);
                effects_1(Effect::NotifyState)
            },
            Err(_) => effects_0(),
        }
    }

    /// Decide what a connecting client has to wait for. Where the user is to be
    /// asked, that is remembered, so that the next request of the same client
    /// joins in.
    pub fn ensure_client_approved(&mut self, name: &str) -> (r: ApprovalStep)
        ensures
            r == old(self)@.approval(name@),
            final(self)@ == (if r is Ask {
                AppModel { pending_approvals: old(self)@.pending_approvals.push(name@), ..old(self)@ }
            } else {
                old(self)@
            }),
            r is Ask ==> final(self)@.pending_approvals.contains(name@),
            final(self)@.config == old(self)@.config,
    {
        proof {
            let asked = self@.pending_approvals.push(name@);
            assert(asked[asked.len() - 1] == name@);
        }
        if name.is_empty() || self.config.knows(name) || self.config.is_forbidden(Some(name)) {
            return ApprovalStep::Proceed;
        }
        if !self.config.require_approval_for_new_clients {
            return ApprovalStep::Record;
        }
        if list_has(&self.pending_approvals, name) {
            return ApprovalStep::Join;
        }
        let ghost prev = texts(self.pending_approvals@);
        self.pending_approvals.push(name.to_owned());
        assert(texts(self.pending_approvals@) =~= prev.push(name@));
        ApprovalStep::Ask
    }

    fn decision_changes(&self, name: &str, allowed: bool) -> (r: bool)
        ensures
            r == self@.decision_changes(name@, allowed),
    {
        if allowed {
            !self.config.knows(name) || self.config.is_forbidden(Some(name))
        } else {
            !self.config.is_forbidden(Some(name))
        }
    }

    /// What is to be written when the user decided on a client at the time `now`.
    pub fn approval_write_at(&self, name: &str, version: Option<&str>, now: &str, allowed: bool) -> (r: Write)
        ensures
            r@ == self@.plan(
                self@.decision_changes(name@, allowed),
                self@.config.with_decision(name@, name_of(version), now@, allowed),
            ),
    {
        let changed = self.decision_changes(name, allowed);
        self.planned(changed, self.config.with_decision(name, version, now, allowed))
    }

    /// What is to be written when the user decided on a client, and the time
    /// that [`AppState::apply_approval_decision`] commits.
    pub fn approval_write(&self, name: &str, version: Option<&str>, allowed: bool) -> (r: (Write, String))
        ensures
            r.0@ == self@.plan(
                self@.decision_changes(name@, allowed),
                self@.config.with_decision(name@, name_of(version), r.1@, allowed),
            ),
    {
        let now = local_time();
        let write = self.approval_write_at(name, version, now.as_str(), allowed);
        (write, now)
    }

    /// Carry out the user's decision on a client.
    pub fn apply_approval_decision(
        &mut self,
        name: &str,
        version: Option<&str>,
        now: &str,
        allowed: bool,
        saved: Result<(), String>,
    ) -> (r: Vec<Effect>)
        ensures
            final(self)@ == old(self)@.decided(name@, name_of(version), now@, allowed, saving(saved)),
            views(r@) == old(self)@.decision_effects(name@, allowed),
    {
        let ghost whole = self@;
        let changed = self.decision_changes(name, allowed);
        let ok = self.persisted(saved).is_ok();
        if changed && (!allowed || ok) {
            self.config = self.config.with_decision(name, version, now, allowed);
        }
        let waiting = list_has(&self.pending_approvals, name);
        let rest = drop_name(&self.pending_approvals, name);
        self.pending_approvals = rest;
        let mut out: Vec<Effect> = Vec::new();
        if waiting {
            out.push(Effect::AnswerApproval { name: name.to_owned(), allowed });
        }
        if changed {
            out.push(Effect::NotifyStructure);
            out.push(Effect::ReconcileAll);
        }
        assert(views(out@) =~= whole.decision_effects(name@, allowed));
        out
    }
}

/// A denied client reaches nothing from then on, whether or not the denial
/// could be saved.
pub proof fn denial_fails_closed(
    m: AppModel,
    client: Seq<char>,
    version: Option<Seq<char>>,
    now: Seq<char>,
    saved: Result<(), Seq<char>>,
    jack: Seq<char>,
)
    ensures
        m.decided(client, version, now, false, saved).config.forbids(Some(client)),
        !m.decided(client, version, now, false, saved).config.grants(jack, Some(client)),
        m.decided(client, version, now, false, saved).config.knows(client) == m.config.knows(client),
{
    let list = m.config.forbidden_clients;
    if !list.contains(client) {
        assert(list.push(client)[list.len() as int] == client);
    }
}

/// An allowed client is known and not denied once that is saved, so it is not
/// asked about again.
pub proof fn allowance_is_remembered(
    m: AppModel,
    client: Seq<char>,
    version: Option<Seq<char>>,
    now: Seq<char>,
    saved: Result<(), Seq<char>>,
)
    requires
        m.written(saved) is Ok,
    ensures
        m.decided(client, version, now, true, saved).config.knows(client),
        !m.decided(client, version, now, true, saved).config.forbids(Some(client)),
        m.decided(client, version, now, true, saved).approval(client) is Proceed,
{
    let after = m.decided(client, version, now, true, saved).config;
    crate::name_map::lemma_filter_holds(m.config.forbidden_clients, other_than(client), client);
    if !m.config.knows(client) {
        let seen = m.config.seen_clients.push(newly_seen(client, version, now));
        assert(seen[seen.len() - 1].name == client);
        crate::config::changes::lemma_first_seen(seen, client);
    }
}

/// While the user is being asked about a client, nobody asks again.
pub proof fn one_question_per_client(m: AppModel, client: Seq<char>)
    requires
        m.approval(client) is Ask,
    ensures
        (AppModel { pending_approvals: m.pending_approvals.push(client), ..m }).approval(client) is Join,
{
    let list = m.pending_approvals.push(client);
    assert(list[list.len() - 1] == client);
}

/// Traffic alone changes only what was observed: noting a client and refreshing
/// its last sighting leave every setting and every grant as it was.
pub proof fn traffic_grants_nothing(
    c: ConfigModel,
    client: Seq<char>,
    version: Option<Seq<char>>,
    now: Seq<char>,
    jack: Seq<char>,
    who: Option<Seq<char>>,
)
    ensures
        c.with_seen(client, version, now) == (ConfigModel {
            seen_clients: c.with_seen(client, version, now).seen_clients,
            ..c
        }),
        c.with_last_seen(client, now) == (ConfigModel {
            seen_clients: c.with_last_seen(client, now).seen_clients,
            ..c
        }),
        c.with_seen(client, version, now).grants(jack, who) == c.grants(jack, who),
        c.with_last_seen(client, now).grants(jack, who) == c.grants(jack, who),
{
}

/// Refreshing a last sighting brings nobody back: who is known stays the same.
pub proof fn refresh_adds_nobody(c: ConfigModel, client: Seq<char>, now: Seq<char>, name: Seq<char>)
    ensures
        c.with_last_seen(client, now).knows(name) == c.knows(name),
{
    let before = c.seen_clients;
    let after = c.with_last_seen(client, now).seen_clients;
    crate::config::changes::lemma_first_seen(before, client);
    crate::config::changes::lemma_first_seen(before, name);
    crate::config::changes::lemma_first_seen(after, name);
    if c.knows(client) {
        let i = crate::config::changes::first_seen(before, client);
        assert forall|k: int| 0 <= k < before.len() implies (#[trigger] after[k]).name == before[k].name by {}
        if c.knows(name) {
            let f = crate::config::changes::first_seen(before, name);
            assert(after[f].name == name);
        }
        if has_seen(after, name) {
            let f = crate::config::changes::first_seen(after, name);
            assert(before[f].name == name);
        }
    }
}

} // verus!
