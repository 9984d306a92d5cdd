//! Deleting agents so that it can be undone.

use vstd::prelude::*;
#[allow(unused_imports)]
use vstd::string::*;

use super::state::{effects_0, effects_3, saving, AgentTombstone, AppModel, AppState, Effect, EffectModel, TombstoneModel, Write, WriteModel};
use crate::config::changes::{
    add_name, drop_name, find_seen, first_seen, has_seen, lemma_first_seen, lemma_is_first_seen, names_with,
    names_without, other_than,
};
use crate::config::grants::list_has;
use crate::config::schema::{ClientOverride, ConfigModel, OverrideModel, PatchbayConfig, SeenClient, SeenModel};
use crate::name_map::{views, Replica};
use crate::text::texts;

verus! {

/// What is known of the clients `names` as seen.
pub open spec fn seen_records(c: ConfigModel, names: Seq<Seq<char>>) -> Seq<SeenModel>
    decreases names.len(),
{
    if names.len() == 0 {
        Seq::empty()
    } else {
        let front = seen_records(c, names.drop_last());
        if c.knows(names.last()) {
            front.push(c.seen_clients[first_seen(c.seen_clients, names.last())])
        } else {
            front
        }
    }
}

/// The own lists of the clients `names`.
pub open spec fn override_records(c: ConfigModel, names: Seq<Seq<char>>) -> Seq<(Seq<char>, OverrideModel)>
    decreases names.len(),
{
    if names.len() == 0 {
        Seq::empty()
    } else {
        let front = override_records(c, names.drop_last());
        if c.client_overrides.contains_key(names.last()) {
            front.push((names.last(), c.client_overrides[names.last()]))
        } else {
            front
        }
    }
}

/// Those of the clients `names` that are denied.
pub open spec fn denied_records(c: ConfigModel, names: Seq<Seq<char>>) -> Seq<Seq<char>> {
    names.filter(|n: Seq<char>| c.forbidden_clients.contains(n))
}

/// All that a deletion of the clients `names` removes.
pub open spec fn captured(c: ConfigModel, names: Seq<Seq<char>>, token: u64) -> TombstoneModel {
    TombstoneModel {
        token,
        clients: seen_records(c, names),
        overrides: override_records(c, names),
        forbidden: denied_records(c, names),
    }
}

/// The configuration with every trace of the clients `names` gone.
pub open spec fn without_clients(c: ConfigModel, names: Seq<Seq<char>>) -> ConfigModel
    decreases names.len(),
{
    if names.len() == 0 {
        c
    } else {
        without_clients(c, names.drop_last()).without_client(names.last())
    }
}

/// The effects of a deletion: each client goes in turn, then the interfaces
/// are rebuilt once.
pub open spec fn deletion_effects(names: Seq<Seq<char>>) -> Seq<EffectModel> {
    names.map_values(|n: Seq<char>| EffectModel::DeleteClient(n)).push(EffectModel::NotifyStructure)
}

/// With each client of `clients` seen again, unless it was seen meanwhile. One
/// that is put back is no longer denied.
pub open spec fn with_clients_back(c: ConfigModel, clients: Seq<SeenModel>) -> ConfigModel
    decreases clients.len(),
{
    if clients.len() == 0 {
        c
    } else {
        let prev = with_clients_back(c, clients.drop_last());
        let back = clients.last();
        if prev.knows(back.name) {
            prev
        } else {
            ConfigModel {
                seen_clients: prev.seen_clients.push(back),
                forbidden_clients: names_without(prev.forbidden_clients, back.name),
                ..prev
            }
        }
    }
}

/// With each own list of `lists` back, unless the client got another meanwhile.
/// A list that is put back is re-keyed after the jacks that exist now.
pub open spec fn with_lists_back(c: ConfigModel, lists: Seq<(Seq<char>, OverrideModel)>) -> ConfigModel
    decreases lists.len(),
{
    if lists.len() == 0 {
        c
    } else {
        let prev = with_lists_back(c, lists.drop_last());
        let (name, o) = lists.last();
        if prev.client_overrides.contains_key(name) {
            prev
        } else {
            prev.with_overrides(
                prev.client_overrides.insert(
                    name,
                    OverrideModel { enabled: o.enabled, jacks: prev.rekeyed(o.jacks, true) },
                ),
            )
        }
    }
}

/// Whether a client was admitted after it was deleted as a denied one.
pub open spec fn readmitted(c: ConfigModel, clients: Seq<SeenModel>, name: Seq<char>) -> bool {
    c.knows(name) && !has_seen(clients, name)
}

/// With each client of `denied` denied again, unless it was admitted meanwhile.
pub open spec fn with_denials_back(c: ConfigModel, clients: Seq<SeenModel>, denied: Seq<Seq<char>>) -> ConfigModel
    decreases denied.len(),
{
    if denied.len() == 0 {
        c
    } else {
        let prev = with_denials_back(c, clients, denied.drop_last());
        if readmitted(prev, clients, denied.last()) {
            prev
        } else {
            prev.with_forbidden(denied.last(), true)
        }
    }
}

/// The configuration with all that a deletion removed put back into it.
pub open spec fn restored(c: ConfigModel, t: TombstoneModel) -> ConfigModel {
    with_denials_back(
        with_lists_back(with_clients_back(c, t.clients), t.overrides),
        t.clients,
        t.forbidden,
    )
}

/// How many clients a deletion is said to have removed.
pub open spec fn restored_count(t: TombstoneModel) -> nat {
    if t.clients.len() >= t.forbidden.len() {
        t.clients.len()
    } else {
        t.forbidden.len()
    }
}

/// Hand out the next token.
pub fn next_undo_token(next: &mut u64) -> (r: u64)
    ensures
        r == *old(next),
        *final(next) == (if *old(next) < u64::MAX {
            (*old(next) + 1) as u64
        } else {
            0
        }),
{
    let token: u64 = *next;
    if token < u64::MAX {
        *next = token + 1;
    } else {
        *next = 0;
    }
    token
}

/// All that a deletion of the clients `names` will remove.
fn capture(cfg: &PatchbayConfig, names: &Vec<String>, token: u64) -> (r: AgentTombstone)
    ensures
        r@ == captured(cfg@, texts(names@), token),
{
    let ghost all = texts(names@);
    let ghost shown = |e: (String, ClientOverride)| (e.0@, e.1@);
    let ghost denied = |n: Seq<char>| cfg@.forbidden_clients.contains(n);
    let mut clients: Vec<SeenClient> = Vec::new();
    let mut overrides: Vec<(String, ClientOverride)> = Vec::new();
    let mut forbidden: Vec<String> = Vec::new();
    proof {
        assert(all.subrange(0, 0) =~= Seq::<Seq<char>>::empty());
        assert(views(clients@) =~= Seq::<SeenModel>::empty());
        assert(overrides@.map_values(shown) =~= Seq::<(Seq<char>, OverrideModel)>::empty());
        assert(texts(forbidden@) =~= Seq::<Seq<char>>::empty());
        crate::name_map::lemma_filter_none(all, denied);
    }
    let mut i: usize = 0;
    while i < names.len()
        invariant
            i <= names.len(),
            all == texts(names@),
            shown == (|e: (String, ClientOverride)| (e.0@, e.1@)),
            denied == (|n: Seq<char>| cfg@.forbidden_clients.contains(n)),
            views(clients@) == seen_records(cfg@, all.subrange(0, i as int)),
            overrides@.map_values(shown) == override_records(cfg@, all.subrange(0, i as int)),
            texts(forbidden@) == all.subrange(0, i as int).filter(denied),
        decreases names.len() - i,
    {
        let ghost step = all.subrange(0, i + 1);
        assert(step.drop_last() =~= all.subrange(0, i as int));
        assert(step.last() == names@[i as int]@);
        assert(all[i as int] == names@[i as int]@);
        proof {
            crate::name_map::lemma_filter_step(all, denied, i as int);
        }
        let name = names[i].as_str();
        if let Some(k) = find_seen(&cfg.seen_clients, name) {
            let ghost prev = views(clients@);
            let c = cfg.seen_clients[k].replica();
            assert(cfg@.seen_clients[k as int] == cfg.seen_clients@[k as int]@);
            clients.push(c);
            assert(views(clients@) =~= prev.push(c@));
        }
        if let Some(o) = cfg.client_overrides.get(name) {
            let ghost prev = overrides@.map_values(shown);
            let copy = o.replica();
            overrides.push((names[i].clone(), copy));
            assert(overrides@.map_values(shown) =~= prev.push((name@, o@)));
        }
        if list_has(&cfg.forbidden_clients, name) {
            let ghost prev = texts(forbidden@);
            forbidden.push(names[i].clone());
            assert(texts(forbidden@) =~= prev.push(name@));
        }
        i = i + 1;
    }
    assert(all.subrange(0, all.len() as int) =~= all);
    AgentTombstone { token, clients, overrides, forbidden }
}

/// The configuration with all that a deletion removed put back into it.
fn restore(cfg: &PatchbayConfig, t: &AgentTombstone) -> (r: PatchbayConfig)
    ensures
        r@ == restored(cfg@, t@),
{
    let ghost c0 = cfg@;
    let ghost clients = views(t.clients@);
    let ghost shown = |e: (String, ClientOverride)| (e.0@, e.1@);
    let ghost lists = t.overrides@.map_values(shown);
    let ghost denied = texts(t.forbidden@);
    let mut snap = cfg.replica();
    assert(clients.subrange(0, 0) =~= Seq::<SeenModel>::empty());
    let mut i: usize = 0;
    while i < t.clients.len()
        invariant
            i <= t.clients.len(),
            clients == views(t.clients@),
            snap@ == with_clients_back(c0, clients.subrange(0, i as int)),
        decreases t.clients.len() - i,
    {
        let ghost step = clients.subrange(0, i + 1);
        assert(step.drop_last() =~= clients.subrange(0, i as int));
        assert(step.last() == t.clients@[i as int]@);
        if !snap.knows(t.clients[i].name.as_str()) {
            let ghost prev = views(snap.seen_clients@);
            let back = t.clients[i].replica();
            snap.seen_clients.push(back);
            assert(views(snap.seen_clients@) =~= prev.push(back@));
            let list = drop_name(&snap.forbidden_clients, t.clients[i].name.as_str());
            snap.forbidden_clients = list;
        }
        i = i + 1;
    }
    assert(clients.subrange(0, clients.len() as int) =~= clients);
    let ghost c1 = snap@;
    assert(lists.subrange(0, 0) =~= Seq::<(Seq<char>, OverrideModel)>::empty());
    let mut j: usize = 0;
    while j < t.overrides.len()
        invariant
            j <= t.overrides.len(),
            shown == (|e: (String, ClientOverride)| (e.0@, e.1@)),
            lists == t.overrides@.map_values(shown),
            snap@ == with_lists_back(c1, lists.subrange(0, j as int)),
        decreases t.overrides.len() - j,
    {
        let ghost step = lists.subrange(0, j + 1);
        assert(step.drop_last() =~= lists.subrange(0, j as int));
        assert(step.last() == (t.overrides@[j as int].0@, t.overrides@[j as int].1@));
        let name = t.overrides[j].0.as_str();
        if !snap.client_overrides.contains_key(name) {
            let (jacks, _) = snap.rekey(&t.overrides[j].1.jacks, true);
            let fresh = ClientOverride { enabled: t.overrides[j].1.enabled, jacks };
            let m = snap.client_overrides.copied();
            snap.client_overrides = m.put(t.overrides[j].0.clone(), fresh);
        }
        j = j + 1;
    }
    assert(lists.subrange(0, lists.len() as int) =~= lists);
    let ghost c2 = snap@;
    assert(denied.subrange(0, 0) =~= Seq::<Seq<char>>::empty());
    let mut k: usize = 0;
    while k < t.forbidden.len()
        invariant
            k <= t.forbidden.len(),
            clients == views(t.clients@),
            denied == texts(t.forbidden@),
            snap@ == with_denials_back(c2, clients, denied.subrange(0, k as int)),
        decreases t.forbidden.len() - k,
    {
        let ghost step = denied.subrange(0, k + 1);
        assert(step.drop_last() =~= denied.subrange(0, k as int));
        assert(step.last() == t.forbidden@[k as int]@);
        let name = t.forbidden[k].as_str();
        let again = snap.knows(name) && find_seen(&t.clients, name).is_none();
        if !again {
            add_name(&mut snap.forbidden_clients, name);
        }
        k = k + 1;
    }
    assert(denied.subrange(0, denied.len() as int) =~= denied);
    snap
}

impl AppState {
    /// Begin to delete several agents: what they are is captured, so that it
    /// can be put back, in place of what an earlier deletion left. The agents
    /// themselves go one by one, as the effects say. Returns the token that
    /// undoes this deletion.
    pub fn delete_agents(&mut self, names: &Vec<String>) -> (r: (u64, Vec<Effect>))
        ensures
            r.0 == old(self)@.next_token,
            final(self)@ == (AppModel {
                agent_tombstone: Some(captured(old(self)@.config, texts(names@), r.0)),
                next_token: final(self)@.next_token,
                ..old(self)@
            }),
            old(self)@.next_token < u64::MAX ==> final(self)@.next_token == old(self)@.next_token + 1,
            old(self)@.next_token == u64::MAX ==> final(self)@.next_token == 0,
            views(r.1@) == deletion_effects(texts(names@)),
    {
        let token: u64 = next_undo_token(&mut self.next_token);
        self.agent_tombstone = Some(capture(&self.config, names, token));
        let ghost all = texts(names@);
        let ghost goal = all.map_values(|n: Seq<char>| EffectModel::DeleteClient(n));
        let mut out: Vec<Effect> = Vec::new();
        assert(views(out@) =~= goal.subrange(0, 0));
        let mut i: usize = 0;
        while i < names.len()
            invariant
                i <= names.len(),
                all == texts(names@),
                goal == all.map_values(|n: Seq<char>| EffectModel::DeleteClient(n)),
                views(out@) == goal.subrange(0, i as int),
            decreases names.len() - i,
        {
            let ghost prev = views(out@);
            out.push(Effect::DeleteClient(names[i].clone()));
            assert(views(out@) =~= prev.push(goal[i as int]));
            i = i + 1;
            assert(views(out@) =~= goal.subrange(0, i as int));
        }
        let ghost prev = views(out@);
        out.push(Effect::NotifyStructure);
        assert(views(out@) =~= prev.push(EffectModel::NotifyStructure));
        assert(goal.subrange(0, goal.len() as int) =~= goal);
        (token, out)
    }

    /// What is to be written when a deletion is undone.
    pub fn undo_delete_agents_write(&self, token: u64) -> (r: Write)
        ensures
            r@ == (match self@.agent_tombstone {
                Some(t) => self@.plan(t.token == token, restored(self@.config, t)),
                None => WriteModel::Nothing,
            }),
    {
        match &self.agent_tombstone {
            Some(t) => {
                if t.token == token {
                    self.persist(restore(&self.config, t))
                } else {
                    Write::Nothing
                }
            },
            None => Write::Nothing,
        }
    }

    /// Put back what a deletion removed, into the configuration as it is now.
    /// A token that is not that of the last deletion is refused, and one that
    /// is can be used once.
    pub fn undo_delete_agents(&mut self, token: u64, saved: Result<(), String>) -> (r: (
        Result<usize, String>,
        Vec<Effect>,
    ))
        ensures
            match old(self)@.agent_tombstone {
                None => {
                    &&& final(self)@ == old(self)@
                    &&& r.0 matches Err(e) && e@ == "nothing to undo"@
                    &&& views(r.1@) == Seq::<EffectModel>::empty()
                },
                Some(t) => if t.token != token {
                    &&& final(self)@ == old(self)@
                    &&& r.0 matches Err(e) && e@ == "this undo is no longer available"@
                    &&& views(r.1@) == Seq::<EffectModel>::empty()
                } else {
                    &&& final(self)@ == (AppModel {
                        agent_tombstone: None,
                        ..old(self)@.committed(true, restored(old(self)@.config, t), saving(saved))
                    })
                    &&& r.0 matches Ok(n) ==> old(self)@.written(saving(saved)) is Ok && n == restored_count(t)
                    &&& r.0 matches Err(e) ==> old(self)@.written(saving(saved)) == Err::<(), Seq<char>>(e@)
                    &&& views(r.1@) == old(self)@.effects(
                        true,
                        saving(saved),
                        Seq::empty(),
                        seq![EffectModel::ReconcileAll, EffectModel::Broadcast, EffectModel::NotifyStructure],
                    )
                },
            },
    {
        let mut slot: Option<AgentTombstone> = None;
        core::mem::swap(&mut slot, &mut self.agent_tombstone);
        match slot {
            None => (Err("nothing to undo".to_owned()), effects_0()),
            Some(t) => {
                if t.token != token {
                    self.agent_tombstone = Some(t);
                    return (Err("this undo is no longer available".to_owned()), effects_0());
                }
                let candidate = restore(&self.config, &t);
                assert(t@.clients.len() == t.clients@.len());
                assert(t@.forbidden.len() == t.forbidden@.len());
                let count: usize = if t.clients.len() >= t.forbidden.len() {
                    t.clients.len()
                } else {
                    t.forbidden.len()
                };
                match self.commit(true, candidate, saved) {
                    Ok(_) => (
                        Ok(count),
                        effects_3(Effect::ReconcileAll, Effect::Broadcast, Effect::NotifyStructure),
                    ),
                    Err(e) => (Err(e), effects_0()),
                }
            },
        }
    }
}

proof fn lemma_push_seen(seen: Seq<SeenModel>, last: SeenModel, name: Seq<char>)
    ensures
        has_seen(seen.push(last), name) <==> has_seen(seen, name) || last.name == name,
        has_seen(seen, name) ==> first_seen(seen.push(last), name) == first_seen(seen, name),
        !has_seen(seen, name) && last.name == name ==> first_seen(seen.push(last), name) == seen.len(),
{
    let all = seen.push(last);
    lemma_first_seen(seen, name);
    lemma_first_seen(all, name);
    if has_seen(seen, name) {
        let f = first_seen(seen, name);
        assert forall|k: int| 0 <= k < f implies (#[trigger] all[k]).name != name by {
            assert(all[k] == seen[k]);
        }
        assert(all[f] == seen[f]);
        lemma_is_first_seen(all, name, f);
    } else if last.name == name {
        assert forall|k: int| 0 <= k < seen.len() implies (#[trigger] all[k]).name != name by {
            assert(all[k] == seen[k]);
        }
        lemma_is_first_seen(all, name, seen.len() as int);
    } else if has_seen(all, name) {
        let f = first_seen(all, name);
        assert(f < seen.len());
        assert(seen[f].name == name);
    }
}

proof fn lemma_drop_seen(seen: Seq<SeenModel>, gone: Seq<char>, name: Seq<char>)
    ensures
        has_seen(seen.filter(|c: SeenModel| c.name != gone), name) <==> has_seen(seen, name) && name != gone,
        has_seen(seen, name) && name != gone ==> seen.filter(|c: SeenModel| c.name != gone)[first_seen(
            seen.filter(|c: SeenModel| c.name != gone),
            name,
        )] == seen[first_seen(seen, name)],
    decreases seen.len(),
{
    reveal(Seq::filter);
    let pred = |c: SeenModel| c.name != gone;
    let kept = seen.filter(pred);
    if seen.len() > 0 {
        let front = seen.drop_last();
        lemma_drop_seen(front, gone, name);
        assert(seen =~= front.push(seen.last()));
        lemma_push_seen(front, seen.last(), name);
        lemma_push_seen(front.filter(pred), seen.last(), name);
        lemma_first_seen(front, name);
        lemma_first_seen(front.filter(pred), name);
    }
}

proof fn lemma_names_without(list: Seq<Seq<char>>, gone: Seq<char>, name: Seq<char>)
    ensures
        names_without(list, gone).contains(name) <==> list.contains(name) && name != gone,
{
    crate::name_map::lemma_filter_holds(list, other_than(gone), name);
}

proof fn lemma_names_with(list: Seq<Seq<char>>, more: Seq<char>, name: Seq<char>)
    ensures
        names_with(list, more).contains(name) <==> list.contains(name) || name == more,
{
    if !list.contains(more) {
        let t = list.push(more);
        assert(t[t.len() - 1] == more);
        if list.contains(name) {
            let k = choose|k: int| 0 <= k < list.len() && list[k] == name;
            assert(t[k] == name);
        }
        if t.contains(name) && name != more {
            let k = choose|k: int| 0 <= k < t.len() && t[k] == name;
            assert(list[k] == name);
        }
    }
}

proof fn lemma_names_last(names: Seq<Seq<char>>, name: Seq<char>)
    requires
        names.len() > 0,
    ensures
        names.contains(name) <==> names.drop_last().contains(name) || names.last() == name,
{
    let front = names.drop_last();
    if names.contains(name) && names.last() != name {
        let k = choose|k: int| 0 <= k < names.len() && names[k] == name;
        assert(front[k] == name);
    }
    if front.contains(name) {
        let k = choose|k: int| 0 <= k < front.len() && front[k] == name;
        assert(names[k] == name);
    }
    assert(names[names.len() - 1] == names.last());
}

/// Deleting clients removes every trace of them, and nothing of any other.
pub proof fn deletion_forgets_only_them(c: ConfigModel, names: Seq<Seq<char>>, name: Seq<char>)
    ensures
        without_clients(c, names) == (ConfigModel {
            seen_clients: without_clients(c, names).seen_clients,
            client_overrides: without_clients(c, names).client_overrides,
            forbidden_clients: without_clients(c, names).forbidden_clients,
            ..c
        }),
        names.contains(name) ==> !without_clients(c, names).mentions(name),
        !names.contains(name) ==> {
            &&& without_clients(c, names).knows(name) == c.knows(name)
            &&& c.knows(name) ==> without_clients(c, names).seen_clients[first_seen(
                without_clients(c, names).seen_clients,
                name,
            )] == c.seen_clients[first_seen(c.seen_clients, name)]
            &&& without_clients(c, names).client_overrides.contains_key(name)
                == c.client_overrides.contains_key(name)
            &&& c.client_overrides.contains_key(name) ==> without_clients(c, names).client_overrides[name]
                == c.client_overrides[name]
            &&& without_clients(c, names).forbids(Some(name)) == c.forbids(Some(name))
        },
    decreases names.len(),
{
    if names.len() > 0 {
        let front = names.drop_last();
        let prev = without_clients(c, front);
        deletion_forgets_only_them(c, front, name);
        lemma_names_last(names, name);
        lemma_drop_seen(prev.seen_clients, names.last(), name);
        lemma_names_without(prev.forbidden_clients, names.last(), name);
    }
}

proof fn lemma_seen_records(c: ConfigModel, names: Seq<Seq<char>>, name: Seq<char>)
    ensures
        has_seen(seen_records(c, names), name) <==> names.contains(name) && c.knows(name),
        has_seen(seen_records(c, names), name) ==> seen_records(c, names)[first_seen(
            seen_records(c, names),
            name,
        )] == c.seen_clients[first_seen(c.seen_clients, name)],
    decreases names.len(),
{
    if names.len() > 0 {
        let front = names.drop_last();
        lemma_seen_records(c, front, name);
        lemma_names_last(names, name);
        lemma_first_seen(c.seen_clients, names.last());
        if c.knows(names.last()) {
            lemma_push_seen(
                seen_records(c, front),
                c.seen_clients[first_seen(c.seen_clients, names.last())],
                name,
            );
            lemma_first_seen(seen_records(c, front), name);
        }
    }
}

proof fn lemma_clients_back(c: ConfigModel, clients: Seq<SeenModel>, name: Seq<char>)
    ensures
        with_clients_back(c, clients) == (ConfigModel {
            seen_clients: with_clients_back(c, clients).seen_clients,
            forbidden_clients: with_clients_back(c, clients).forbidden_clients,
            ..c
        }),
        with_clients_back(c, clients).knows(name) <==> c.knows(name) || has_seen(clients, name),
        c.knows(name) ==> with_clients_back(c, clients).seen_clients[first_seen(
            with_clients_back(c, clients).seen_clients,
            name,
        )] == c.seen_clients[first_seen(c.seen_clients, name)],
        !c.knows(name) && has_seen(clients, name) ==> with_clients_back(c, clients).seen_clients[first_seen(
            with_clients_back(c, clients).seen_clients,
            name,
        )] == clients[first_seen(clients, name)],
        with_clients_back(c, clients).forbids(Some(name)) <==> c.forbids(Some(name)) && (c.knows(name)
            || !has_seen(clients, name)),
    decreases clients.len(),
{
    if clients.len() > 0 {
        let front = clients.drop_last();
        let prev = with_clients_back(c, front);
        let back = clients.last();
        lemma_clients_back(c, front, name);
        lemma_clients_back(c, front, back.name);
        assert(clients =~= front.push(back));
        lemma_push_seen(front, back, name);
        lemma_push_seen(prev.seen_clients, back, name);
        lemma_first_seen(prev.seen_clients, name);
        lemma_first_seen(front, name);
        lemma_names_without(prev.forbidden_clients, back.name, name);
    }
}

/// The own lists of `lists` cover a client.
pub open spec fn lists_cover(lists: Seq<(Seq<char>, OverrideModel)>, name: Seq<char>) -> bool {
    exists|k: int| 0 <= k < lists.len() && (#[trigger] lists[k]).0 == name
}

proof fn lemma_cover_last(lists: Seq<(Seq<char>, OverrideModel)>, name: Seq<char>)
    requires
        lists.len() > 0,
    ensures
        lists_cover(lists, name) <==> lists_cover(lists.drop_last(), name) || lists.last().0 == name,
{
    let front = lists.drop_last();
    if lists_cover(lists, name) && lists.last().0 != name {
        let k = choose|k: int| 0 <= k < lists.len() && (#[trigger] lists[k]).0 == name;
        assert(front[k].0 == name);
    }
    if lists_cover(front, name) {
        let k = choose|k: int| 0 <= k < front.len() && (#[trigger] front[k]).0 == name;
        assert(lists[k].0 == name);
    }
    if lists.last().0 == name {
        assert(lists[lists.len() - 1].0 == name);
    }
}

proof fn lemma_override_records(c: ConfigModel, names: Seq<Seq<char>>, name: Seq<char>)
    ensures
        lists_cover(override_records(c, names), name) <==> names.contains(name)
            && c.client_overrides.contains_key(name),
        forall|k: int|
            0 <= k < override_records(c, names).len() ==> c.client_overrides.contains_key(
                (#[trigger] override_records(c, names)[k]).0,
            ) && override_records(c, names)[k].1 == c.client_overrides[override_records(c, names)[k].0],
    decreases names.len(),
{
    if names.len() > 0 {
        let front = names.drop_last();
        let all = override_records(c, names);
        lemma_override_records(c, front, name);
        lemma_names_last(names, name);
        if c.client_overrides.contains_key(names.last()) {
            assert(all.drop_last() =~= override_records(c, front));
            lemma_cover_last(all, name);
            assert forall|k: int| 0 <= k < all.len() implies c.client_overrides.contains_key(
                (#[trigger] all[k]).0,
            ) && all[k].1 == c.client_overrides[all[k].0] by {
                if k < all.len() - 1 {
                    assert(override_records(c, front)[k] == all[k]);
                }
            }
        }
    }
}

proof fn lemma_lists_back(
    c: ConfigModel,
    lists: Seq<(Seq<char>, OverrideModel)>,
    from: Map<Seq<char>, OverrideModel>,
    name: Seq<char>,
)
    requires
        forall|k: int|
            0 <= k < lists.len() ==> from.contains_key((#[trigger] lists[k]).0) && lists[k].1
                == from[lists[k].0],
    ensures
        with_lists_back(c, lists) == c.with_overrides(with_lists_back(c, lists).client_overrides),
        with_lists_back(c, lists).client_overrides.contains_key(name) <==> c.client_overrides.contains_key(name)
            || lists_cover(lists, name),
        c.client_overrides.contains_key(name) ==> with_lists_back(c, lists).client_overrides[name]
            == c.client_overrides[name],
        !c.client_overrides.contains_key(name) && lists_cover(lists, name) ==> with_lists_back(
            c,
            lists,
        ).client_overrides[name] == (OverrideModel {
            enabled: from[name].enabled,
            jacks: c.rekeyed(from[name].jacks, true),
        }),
    decreases lists.len(),
{
    if lists.len() > 0 {
        let front = lists.drop_last();
        let prev = with_lists_back(c, front);
        assert forall|k: int| 0 <= k < front.len() implies from.contains_key((#[trigger] front[k]).0)
            && front[k].1 == from[front[k].0] by {
            assert(front[k] == lists[k]);
        }
        lemma_lists_back(c, front, from, name);
        lemma_lists_back(c, front, from, lists.last().0);
        lemma_cover_last(lists, name);
        assert(lists[lists.len() - 1] == lists.last());
        assert(prev.rekeyed(lists.last().1.jacks, true) =~= c.rekeyed(lists.last().1.jacks, true));
    } else {
        assert(c.with_overrides(c.client_overrides) == c);
    }
}

proof fn lemma_denials_back(
    c: ConfigModel,
    clients: Seq<SeenModel>,
    denied: Seq<Seq<char>>,
    name: Seq<char>,
)
    ensures
        with_denials_back(c, clients, denied) == (ConfigModel {
            forbidden_clients: with_denials_back(c, clients, denied).forbidden_clients,
            ..c
        }),
        with_denials_back(c, clients, denied).forbids(Some(name)) <==> c.forbids(Some(name)) || (
        denied.contains(name) && !readmitted(c, clients, name)),
    decreases denied.len(),
{
    if denied.len() > 0 {
        let front = denied.drop_last();
        let prev = with_denials_back(c, clients, front);
        lemma_denials_back(c, clients, front, name);
        lemma_names_last(denied, name);
        lemma_names_with(prev.forbidden_clients, denied.last(), name);
    }
}

/// Undoing a deletion right away gives every client back what it had: whether
/// it was seen, and its record; whether it is denied; and its own list, named
/// after the jacks that exist. Nothing else is touched.
pub proof fn undo_gives_back(c: ConfigModel, names: Seq<Seq<char>>, token: u64, name: Seq<char>)
    ensures
        ({
            let after = restored(without_clients(c, names), captured(c, names, token));
            &&& after == (ConfigModel {
                seen_clients: after.seen_clients,
                client_overrides: after.client_overrides,
                forbidden_clients: after.forbidden_clients,
                ..c
            })
            &&& after.knows(name) == c.knows(name)
            &&& c.knows(name) ==> after.seen_clients[first_seen(after.seen_clients, name)]
                == c.seen_clients[first_seen(c.seen_clients, name)]
            &&& after.forbids(Some(name)) == c.forbids(Some(name))
            &&& after.client_overrides.contains_key(name) == c.client_overrides.contains_key(name)
            &&& c.client_overrides.contains_key(name) ==> after.client_overrides[name]
                == if names.contains(name) {
                OverrideModel {
                    enabled: c.client_overrides[name].enabled,
                    jacks: c.rekeyed(c.client_overrides[name].jacks, true),
                }
            } else {
                c.client_overrides[name]
            }
        }),
{
    let t = captured(c, names, token);
    let gone = without_clients(c, names);
    let c1 = with_clients_back(gone, t.clients);
    let c2 = with_lists_back(c1, t.overrides);
    deletion_forgets_only_them(c, names, name);
    lemma_seen_records(c, names, name);
    lemma_override_records(c, names, name);
    lemma_clients_back(gone, t.clients, name);
    lemma_lists_back(c1, t.overrides, c.client_overrides, name);
    lemma_denials_back(c2, t.clients, t.forbidden, name);
    crate::name_map::lemma_filter_holds(names, |n: Seq<char>| c.forbidden_clients.contains(n), name);
    if c.client_overrides.contains_key(name) {
        assert(c1.rekeyed(c.client_overrides[name].jacks, true) =~= c.rekeyed(
            c.client_overrides[name].jacks,
            true,
        ));
    }
}

/// So where the own lists name exactly the jacks that exist, undoing a deletion
/// right away leaves what every client may reach as it was.
pub proof fn undo_gives_back_access(
    c: ConfigModel,
    names: Seq<Seq<char>>,
    token: u64,
    jack: Seq<char>,
    client: Option<Seq<char>>,
)
    requires
        c.overrides_mirror_jacks(),
    ensures
        restored(without_clients(c, names), captured(c, names, token)).grants(jack, client) == c.grants(
            jack,
            client,
        ),
{
    let name = match client {
        Some(n) => n,
        None => Seq::empty(),
    };
    undo_gives_back(c, names, token, name);
    if c.client_overrides.contains_key(name) {
        assert(c.rekeyed(c.client_overrides[name].jacks, true) =~= c.client_overrides[name].jacks);
    }
}

/// An undo only adds: whatever changed since the deletion is kept. The clients
/// seen by now stay seen with their records, and the own lists of now stay. A
/// denial of now stays unless its client is put back as seen, and then it comes
/// back only with the deletion's own denials.
pub proof fn undo_keeps_later_changes(c: ConfigModel, t: TombstoneModel, name: Seq<char>)
    requires
        forall|k: int, l: int|
            0 <= k < l < t.overrides.len() && (#[trigger] t.overrides[k]).0 == (#[trigger] t.overrides[l]).0
                ==> t.overrides[k].1 == t.overrides[l].1,
    ensures
        restored(c, t) == (ConfigModel {
            seen_clients: restored(c, t).seen_clients,
            client_overrides: restored(c, t).client_overrides,
            forbidden_clients: restored(c, t).forbidden_clients,
            ..c
        }),
        c.knows(name) ==> restored(c, t).knows(name) && restored(c, t).seen_clients[first_seen(
            restored(c, t).seen_clients,
            name,
        )] == c.seen_clients[first_seen(c.seen_clients, name)],
        c.client_overrides.contains_key(name) ==> restored(c, t).client_overrides.contains_key(name)
            && restored(c, t).client_overrides[name] == c.client_overrides[name],
        c.forbids(Some(name)) && (c.knows(name) || !has_seen(t.clients, name)) ==> restored(c, t).forbids(
            Some(name),
        ),
        c.knows(name) && !has_seen(t.clients, name) && !c.forbids(Some(name)) ==> !restored(c, t).forbids(
            Some(name),
        ),
{
    let c1 = with_clients_back(c, t.clients);
    let c2 = with_lists_back(c1, t.overrides);
    let from = Map::new(
        |n: Seq<char>| lists_cover(t.overrides, n),
        |n: Seq<char>| t.overrides[choose|k: int| 0 <= k < t.overrides.len() && (#[trigger] t.overrides[k]).0 == n].1,
    );
    assert forall|k: int| 0 <= k < t.overrides.len() implies from.contains_key((#[trigger] t.overrides[k]).0)
        && t.overrides[k].1 == from[t.overrides[k].0] by {
        let n = t.overrides[k].0;
        assert(lists_cover(t.overrides, n));
        let l = choose|l: int| 0 <= l < t.overrides.len() && (#[trigger] t.overrides[l]).0 == n;
        if k < l {
            assert(t.overrides[k].0 == t.overrides[l].0);
        } else if l < k {
            assert(t.overrides[l].0 == t.overrides[k].0);
        }
    }
    lemma_clients_back(c, t.clients, name);
    lemma_lists_back(c1, t.overrides, from, name);
    lemma_denials_back(c2, t.clients, t.forbidden, name);
}

/// Deleting agents deletes each of them, in order, and rebuilds what the user sees; what
/// is kept for the undo is what each of them had.
pub proof fn deletion_deletes_each(c: ConfigModel, names: Seq<Seq<char>>, token: u64, i: int)
    requires
        0 <= i < names.len(),
    ensures
        deletion_effects(names).len() == names.len() + 1,
        deletion_effects(names)[i] == EffectModel::DeleteClient(names[i]),
        deletion_effects(names).last() == EffectModel::NotifyStructure,
        captured(c, names, token).token == token,
        c.forbidden_clients.contains(names[i]) ==> captured(c, names, token).forbidden.contains(names[i]),
        c.client_overrides.contains_key(names[i]) ==> lists_cover(captured(c, names, token).overrides, names[i]),
        c.knows(names[i]) ==> has_seen(captured(c, names, token).clients, names[i]),
{
    assert(names.contains(names[i]));
    lemma_seen_records(c, names, names[i]);
    lemma_override_records(c, names, names[i]);
    crate::name_map::lemma_filter_holds(names, |n: Seq<char>| c.forbidden_clients.contains(n), names[i]);
}

/// An undo reports as many agents as came back: those that were known, or those that were
/// denied where they are more.
pub proof fn undo_reports_who_came_back(t: TombstoneModel)
    ensures
        restored_count(t) >= t.clients.len(),
        restored_count(t) >= t.forbidden.len(),
        restored_count(t) == t.clients.len() || restored_count(t) == t.forbidden.len(),
{
}

} // verus!
