//! Clients: denying them, giving them a list of their own, and forgetting them.

use vstd::prelude::*;
#[allow(unused_imports)]
use vstd::string::*;

use super::state::{
    bool_text, bool_word, effects_0, effects_1, effects_2, effects_3, effects_4, saving, AppState, Effect,
    EffectModel, Write, WriteModel,
};
use super::laws::{batches_change_what_they_say, denials_take_effect};
use crate::config::laws::{deleting_forgets_one_client, denying_many_denies_each, own_lists_come_and_go};
use crate::config::schema::{ConfigModel, SeenModel};
use crate::name_map::views;
use crate::numerals::{decimal, decimal_text};
use crate::text::texts;

verus! {

/// `<words> '<name>'`.
pub open spec fn named_event(words: Seq<char>, name: Seq<char>) -> Seq<char> {
    words + " '"@ + name + "'"@
}

pub(crate) fn named_event_text(words: &str, name: &str) -> (r: String)
    ensures
        r@ == named_event(words@, name@),
{
    let mut s = words.to_owned();
    s.append(" '");
    s.append(name);
    s.append("'");
    s
}

pub open spec fn forbidden_effects(client: Seq<char>, denied: bool) -> Seq<EffectModel> {
    seq![
        EffectModel::ReconcileAll,
        EffectModel::RequestEvent(
            named_event("set_forbidden"@, client) + " -> forbidden="@ + bool_word(denied),
        ),
        EffectModel::NotifyStructure,
    ]
}

pub open spec fn batch_effects(count: nat, denied: bool) -> Seq<EffectModel> {
    seq![
        EffectModel::ReconcileAll,
        EffectModel::Broadcast,
        EffectModel::RequestEvent(
            "set_forbidden_batch "@ + decimal(count) + " identities -> forbidden="@ + bool_word(denied),
        ),
        EffectModel::NotifyStructure,
    ]
}

/// Whether denying, or no longer denying, several clients changes anything.
pub open spec fn batch_changes(c: ConfigModel, clients: Seq<Seq<char>>, denied: bool) -> bool {
    c.with_forbidden_all(clients, denied).forbidden_clients.len() != c.forbidden_clients.len()
}

impl AppState {
    /// What is to be written when a client is denied, or no longer denied.
    pub fn set_forbidden_write(&self, identity: &str, forbidden: bool) -> (r: Write)
        ensures
            r@ == self@.plan(
                self@.config.forbids(Some(identity@)) != forbidden,
                self@.config.with_forbidden(identity@, forbidden),
            ),
            r@ matches WriteModel::Config(c) ==> c.forbidden_clients.contains(identity@) == forbidden && c.jacks
                == self@.config.jacks,
            r@ is Nothing ==> self@.config.forbidden_clients.contains(identity@) == forbidden,
    {
        proof {
            denying_many_denies_each(self@.config, Seq::empty(), identity@, forbidden);
        }
        let changed = self.config.is_forbidden(Some(identity)) != forbidden;
        self.planned(changed, self.config.with_forbidden(identity, forbidden))
    }

    /// Deny a client, or no longer deny it. What was seen of the client stays
    /// as it is either way.
    pub fn set_forbidden(&mut self, identity: &str, forbidden: bool, saved: Result<(), String>) -> (r: (
        Result<(), String>,
        Vec<Effect>,
    ))
        ensures
            final(self)@ == old(self)@.committed(
                old(self)@.config.forbids(Some(identity@)) != forbidden,
                old(self)@.config.with_forbidden(identity@, forbidden),
                saving(saved),
            ),
            saving(r.0) == old(self)@.verdict(
                old(self)@.config.forbids(Some(identity@)) != forbidden,
                saving(saved),
            ),
            views(r.1@) == old(self)@.effects(
                old(self)@.config.forbids(Some(identity@)) != forbidden,
                saving(saved),
                seq![EffectModel::Broadcast],
                forbidden_effects(identity@, forbidden),
            ),
            old(self)@.config_error is None && saved is Ok ==> {
                &&& r.0 is Ok
                &&& final(self)@.config.forbidden_clients.contains(identity@) == forbidden
                &&& old(self)@.config.forbidden_clients.contains(identity@) != forbidden ==> views(r.1@).contains(
                    EffectModel::ReconcileAll,
                ) && views(r.1@).contains(EffectModel::NotifyStructure)
            },
            final(self)@.config.jacks == old(self)@.config.jacks,
            final(self)@.config.seen_clients == old(self)@.config.seen_clients,
            final(self)@.config.client_overrides == old(self)@.config.client_overrides,
    {
        proof {
            denying_many_denies_each(self@.config, Seq::empty(), identity@, forbidden);
            denials_take_effect(identity@, 0, forbidden);
        }
        let changed = self.config.is_forbidden(Some(identity)) != forbidden;
        let candidate = self.config.with_forbidden(identity, forbidden);
        match self.commit(changed, candidate, saved) {
            Ok(false) => (Ok(()), effects_1(Effect::Broadcast)),
            Ok(true) => {
                let mut text = named_event_text("set_forbidden", identity);
                text.append(" -> forbidden=");
                text.append(bool_text(forbidden));
                (Ok(()), effects_3(Effect::ReconcileAll, Effect::RequestEvent(text), Effect::NotifyStructure))
            },
            Err(e) => (Err(e), effects_0()),
        }
    }

    /// What is to be written when several clients are denied, or no longer.
    pub fn set_forbidden_batch_write(&self, identities: &Vec<String>, forbidden: bool) -> (r: Write)
        ensures
            r@ == self@.plan(
                batch_changes(self@.config, texts(identities@), forbidden),
                self@.config.with_forbidden_all(texts(identities@), forbidden),
            ),
    {
        let candidate = self.config.with_forbidden_all(identities, forbidden);
        assert(texts(candidate.forbidden_clients@).len() == candidate.forbidden_clients@.len());
        assert(texts(self.config.forbidden_clients@).len() == self.config.forbidden_clients@.len());
        let changed = candidate.forbidden_clients.len() != self.config.forbidden_clients.len();
        self.planned(changed, candidate)
    }

    /// Deny several clients, or no longer deny them, in one go. Returns how
    /// many were asked for, and 0 where nothing changed.
    pub fn set_forbidden_batch(&mut self, identities: &Vec<String>, forbidden: bool, saved: Result<(), String>) -> (r: (
        Result<usize, String>,
        Vec<Effect>,
    ))
        ensures
            final(self)@ == old(self)@.committed(
                batch_changes(old(self)@.config, texts(identities@), forbidden),
                old(self)@.config.with_forbidden_all(texts(identities@), forbidden),
                saving(saved),
            ),
            match r.0 {
                Ok(n) => old(self)@.verdict(
                    batch_changes(old(self)@.config, texts(identities@), forbidden),
                    saving(saved),
                ) is Ok && n == (if batch_changes(old(self)@.config, texts(identities@), forbidden) {
                    identities@.len()
                } else {
                    0
                }),
                Err(e) => old(self)@.verdict(
                    batch_changes(old(self)@.config, texts(identities@), forbidden),
                    saving(saved),
                ) == Err::<(), Seq<char>>(e@),
            },
            views(r.1@) == old(self)@.effects(
                batch_changes(old(self)@.config, texts(identities@), forbidden),
                saving(saved),
                Seq::empty(),
                batch_effects(identities@.len(), forbidden),
            ),
            old(self)@.config_error is None && saved is Ok ==> {
                &&& r.0 is Ok
                &&& forall|i: int|
                    0 <= i < identities@.len() ==> final(self)@.config.forbidden_clients.contains(
                        (#[trigger] identities@[i])@,
                    ) == forbidden
            },
            forall|other: Seq<char>|
                !texts(identities@).contains(other) ==> (#[trigger] final(self)@.config.forbidden_clients.contains(other)
                    == old(self)@.config.forbidden_clients.contains(other)),
    {
        proof {
            let all = texts(identities@);
            let after = self@.config.with_forbidden_all(all, forbidden).forbidden_clients;
            assert forall|x: Seq<char>| #[trigger] after.contains(x) == (if forbidden {
                self@.config.forbidden_clients.contains(x) || all.contains(x)
            } else {
                self@.config.forbidden_clients.contains(x) && !all.contains(x)
            }) by {
                denying_many_denies_each(self@.config, all, x, forbidden);
            }
            batches_change_what_they_say(self@.config, all);
            assert forall|i: int| 0 <= i < identities@.len() implies all.contains((#[trigger] identities@[i])@) by {
                assert(all[i] == identities@[i]@);
            }
            if !batch_changes(self@.config, all, forbidden) {
                assert forall|i: int| 0 <= i < identities@.len() implies self@.config.forbidden_clients.contains(
                    (#[trigger] identities@[i])@,
                ) == forbidden by {
                    let x = identities@[i]@;
                    assert(all[i] == x);
                    if !forbidden && self@.config.forbidden_clients.contains(x) {
                        let k = choose|k: int|
                            0 <= k < self@.config.forbidden_clients.len() && self@.config.forbidden_clients[k] == x;
                        assert(all.contains(self@.config.forbidden_clients[k]));
                    }
                }
            }
        }
        let candidate = self.config.with_forbidden_all(identities, forbidden);
        assert(texts(candidate.forbidden_clients@).len() == candidate.forbidden_clients@.len());
        assert(texts(self.config.forbidden_clients@).len() == self.config.forbidden_clients@.len());
        let changed = candidate.forbidden_clients.len() != self.config.forbidden_clients.len();
        match self.commit(changed, candidate, saved) {
            Ok(false) => (Ok(0), effects_0()),
            Ok(true) => {
                let mut text = "set_forbidden_batch ".to_owned();
                text.append(decimal_text(identities.len() as u64).as_str());
                text.append(" identities -> forbidden=");
                text.append(bool_text(forbidden));
                (
                    Ok(identities.len()),
                    effects_4(
                        Effect::ReconcileAll,
                        Effect::Broadcast,
                        Effect::RequestEvent(text),
                        Effect::NotifyStructure,
                    ),
                )
            },
            Err(e) => (Err(e), effects_0()),
        }
    }

    /// Whether a client uses a list of its own.
    fn customizes(&self, client_name: &str) -> (r: bool)
        ensures
            r == self@.config.customizes(client_name@),
    {
        match self.config.client_overrides.get(client_name) {
            Some(o) => o.enabled,
            None => false,
        }
    }

    /// What is to be written when a client gets a list of its own.
    pub fn enable_custom_client_write(&self, client_name: &str) -> (r: Write)
        ensures
            r@ == self@.plan(
                !self@.config.customizes(client_name@),
                self@.config.with_custom(client_name@),
            ),
    {
        let changed = !self.customizes(client_name);
        self.planned(changed, self.config.with_custom(client_name))
    }

    /// Give a client a list of its own, with no jack changed yet: the list that
    /// it had before, or else a copy of the global one.
    pub fn enable_custom_client(&mut self, client_name: &str, saved: Result<(), String>) -> (r: (
        Result<(), String>,
        Vec<Effect>,
    ))
        ensures
            final(self)@ == old(self)@.committed(
                !old(self)@.config.customizes(client_name@),
                old(self)@.config.with_custom(client_name@),
                saving(saved),
            ),
            saving(r.0) == old(self)@.verdict(!old(self)@.config.customizes(client_name@), saving(saved)),
            views(r.1@) == old(self)@.effects(
                !old(self)@.config.customizes(client_name@),
                saving(saved),
                Seq::empty(),
                seq![
                    EffectModel::ReconcileEach,
                    EffectModel::Broadcast,
                    EffectModel::RequestEvent(named_event("custom_enable"@, client_name@)),
                    EffectModel::NotifyStructure,
                ],
            ),
            old(self)@.config_error is None && saved is Ok ==> {
                let after = final(self)@.config.client_overrides;
                &&& r.0 is Ok
                &&& after.contains_key(client_name@)
                &&& after[client_name@].enabled
                &&& old(self)@.config.client_overrides.contains_key(client_name@) ==> after[client_name@].jacks
                    == old(self)@.config.client_overrides[client_name@].jacks
            },
            final(self)@.config.jacks == old(self)@.config.jacks,
    {
        proof {
            own_lists_come_and_go(self@.config, client_name@, client_name@, 0);
        }
        let changed = !self.customizes(client_name);
        let candidate = self.config.with_custom(client_name);
        match self.commit(changed, candidate, saved) {
            Ok(false) => (Ok(()), effects_0()),
            Ok(true) => {
                let text = named_event_text("custom_enable", client_name);
                (
                    Ok(()),
                    effects_4(
                        Effect::ReconcileEach,
                        Effect::Broadcast,
                        Effect::RequestEvent(text),
                        Effect::NotifyStructure,
                    ),
                )
            },
            Err(e) => (Err(e), effects_0()),
        }
    }

    /// What is to be written when a client's own list is put aside.
    pub fn disable_custom_client_write(&self, client_name: &str) -> (r: Write)
        ensures
            r@ == self@.plan(
                self@.config.customizes(client_name@),
                self@.config.without_custom(client_name@),
            ),
    {
        let changed = self.customizes(client_name);
        self.planned(changed, self.config.without_custom(client_name))
    }

    /// Put a client's own list aside. The list is kept, so that it can be taken
    /// up again.
    pub fn disable_custom_client(&mut self, client_name: &str, saved: Result<(), String>) -> (r: (
        Result<(), String>,
        Vec<Effect>,
    ))
        ensures
            final(self)@ == old(self)@.committed(
                old(self)@.config.customizes(client_name@),
                old(self)@.config.without_custom(client_name@),
                saving(saved),
            ),
            saving(r.0) == old(self)@.verdict(old(self)@.config.customizes(client_name@), saving(saved)),
            views(r.1@) == old(self)@.effects(
                old(self)@.config.customizes(client_name@),
                saving(saved),
                seq![EffectModel::Broadcast],
                seq![
                    EffectModel::ReconcileAll,
                    EffectModel::RequestEvent(named_event("custom_disable"@, client_name@)),
                    EffectModel::NotifyStructure,
                ],
            ),
            old(self)@.config_error is None && saved is Ok ==> {
                let after = final(self)@.config.client_overrides;
                &&& r.0 is Ok
                &&& after.contains_key(client_name@) == old(self)@.config.client_overrides.contains_key(client_name@)
                &&& after.contains_key(client_name@) ==> !after[client_name@].enabled && after[client_name@].jacks
                    == old(self)@.config.client_overrides[client_name@].jacks
            },
            final(self)@.config.jacks == old(self)@.config.jacks,
    {
        proof {
            own_lists_come_and_go(self@.config, client_name@, client_name@, 0);
        }
        let changed = self.customizes(client_name);
        let candidate = self.config.without_custom(client_name);
        match self.commit(changed, candidate, saved) {
            Ok(false) => (Ok(()), effects_1(Effect::Broadcast)),
            Ok(true) => {
                let text = named_event_text("custom_disable", client_name);
                (Ok(()), effects_3(Effect::ReconcileAll, Effect::RequestEvent(text), Effect::NotifyStructure))
            },
            Err(e) => (Err(e), effects_0()),
        }
    }

    /// What is to be written when a client's own list is discarded.
    pub fn reset_custom_to_global_write(&self, client_name: &str) -> (r: Write)
        ensures
            r@ == self@.plan(
                self@.config.client_overrides.contains_key(client_name@),
                self@.config.without_override(client_name@),
            ),
    {
        let changed = self.config.client_overrides.contains_key(client_name);
        self.planned(changed, self.config.without_override(client_name))
    }

    /// Discard a client's own list, so that the client follows the global one.
    pub fn reset_custom_to_global(&mut self, client_name: &str, saved: Result<(), String>) -> (r: (
        Result<(), String>,
        Vec<Effect>,
    ))
        ensures
            final(self)@ == old(self)@.committed(
                old(self)@.config.client_overrides.contains_key(client_name@),
                old(self)@.config.without_override(client_name@),
                saving(saved),
            ),
            saving(r.0) == old(self)@.verdict(
                old(self)@.config.client_overrides.contains_key(client_name@),
                saving(saved),
            ),
            views(r.1@) == old(self)@.effects(
                old(self)@.config.client_overrides.contains_key(client_name@),
                saving(saved),
                Seq::empty(),
                seq![EffectModel::ReconcileAll, EffectModel::NotifyStructure],
            ),
            old(self)@.config_error is None && saved is Ok ==> r.0 is Ok && !final(self)@.config.client_overrides.contains_key(
                client_name@,
            ),
            final(self)@.config.jacks == old(self)@.config.jacks,
    {
        proof {
            own_lists_come_and_go(self@.config, client_name@, client_name@, 0);
        }
        let changed = self.config.client_overrides.contains_key(client_name);
        let candidate = self.config.without_override(client_name);
        match self.commit(changed, candidate, saved) {
            Ok(false) => (Ok(()), effects_0()),
            Ok(true) => (Ok(()), effects_2(Effect::ReconcileAll, Effect::NotifyStructure)),
            Err(e) => (Err(e), effects_0()),
        }
    }

    /// What is to be written when a client is forgotten.
    pub fn delete_client_write(&self, identity: &str) -> (r: Write)
        ensures
            r@ == self@.plan(self@.config.mentions(identity@), self@.config.without_client(identity@)),
    {
        let changed = self.config.mentions(identity);
        self.planned(changed, self.config.without_client(identity))
    }

    /// Forget a client: as seen, as denied, and its own list. It is a stranger
    /// when it connects again.
    pub fn delete_client(&mut self, identity: &str, saved: Result<(), String>) -> (r: (
        Result<(), String>,
        Vec<Effect>,
    ))
        ensures
            final(self)@ == old(self)@.committed(
                old(self)@.config.mentions(identity@),
                old(self)@.config.without_client(identity@),
                saving(saved),
            ),
            saving(r.0) == old(self)@.verdict(old(self)@.config.mentions(identity@), saving(saved)),
            views(r.1@) == old(self)@.effects(
                old(self)@.config.mentions(identity@),
                saving(saved),
                Seq::empty(),
                seq![
                    EffectModel::ReconcileAll,
                    EffectModel::RequestEvent(named_event("delete_client"@, identity@)),
                    EffectModel::NotifyStructure,
                ],
            ),
            old(self)@.config_error is None && saved is Ok ==> {
                let after = final(self)@.config;
                &&& r.0 is Ok
                &&& !after.client_overrides.contains_key(identity@)
                &&& !after.forbidden_clients.contains(identity@)
                &&& forall|i: int| 0 <= i < after.seen_clients.len() ==> (#[trigger] after.seen_clients[i]).name != identity@
            },
            final(self)@.config.jacks == old(self)@.config.jacks,
    {
        proof {
            let seen = self@.config.seen_clients;
            crate::config::changes::lemma_first_seen(seen, identity@);
            deleting_forgets_one_client(
                self@.config,
                identity@,
                SeenModel { name: identity@, first_seen_version: None, first_seen: identity@, last_seen: None },
                identity@,
            );
        }
        let changed = self.config.mentions(identity);
        let candidate = self.config.without_client(identity);
        match self.commit(changed, candidate, saved) {
            Ok(false) => (Ok(()), effects_0()),
            Ok(true) => {
                let text = named_event_text("delete_client", identity);
                (Ok(()), effects_3(Effect::ReconcileAll, Effect::RequestEvent(text), Effect::NotifyStructure))
            },
            Err(e) => (Err(e), effects_0()),
        }
    }
}

} // verus!
