//! The changes that the application makes to a configuration, each as a new
//! configuration beside the one it starts from.

use vstd::prelude::*;

use super::grants::{find_jack, first_named, has_jack, list_has, name_of};
use super::schema::{
    ClientOverride, ConfigModel, JackConfig, JackModel, OverrideModel, PatchbayConfig, SeenClient,
    SeenModel,
};
use crate::name_map::{lemma_filter_none, lemma_filter_step, replicas, views, NameMap, Replica};
use crate::text::{same_text, texts};

verus! {

/// The position of the first client of a name; the number of clients where
/// there is none.
pub open spec fn first_seen(seen: Seq<SeenModel>, name: Seq<char>) -> int
    decreases seen.len(),
{
    if seen.len() == 0 || seen[0].name == name {
        0
    } else {
        1 + first_seen(seen.drop_first(), name)
    }
}

/// Whether some client of the name has connected before.
pub open spec fn has_seen(seen: Seq<SeenModel>, name: Seq<char>) -> bool {
    first_seen(seen, name) < seen.len()
}

pub proof fn lemma_first_seen(seen: Seq<SeenModel>, name: Seq<char>)
    ensures
        0 <= first_seen(seen, name) <= seen.len(),
        has_seen(seen, name) ==> seen[first_seen(seen, name)].name == name,
        forall|k: int| 0 <= k < first_seen(seen, name) ==> (#[trigger] seen[k]).name != name,
        has_seen(seen, name) <==> exists|k: int| 0 <= k < seen.len() && (#[trigger] seen[k]).name == name,
    decreases seen.len(),
{
    if seen.len() > 0 && seen[0].name != name {
        let rest = seen.drop_first();
        lemma_first_seen(rest, name);
        assert forall|k: int| 0 <= k < first_seen(seen, name) implies (#[trigger] seen[k]).name != name by {
            if k > 0 {
                assert(rest[k - 1] == seen[k]);
            }
        }
        if exists|k: int| 0 <= k < seen.len() && (#[trigger] seen[k]).name == name {
            let k = choose|k: int| 0 <= k < seen.len() && (#[trigger] seen[k]).name == name;
            assert(rest[k - 1].name == name);
        }
    }
    if has_seen(seen, name) {
        assert(seen[first_seen(seen, name)].name == name);
    }
}

pub proof fn lemma_is_first_seen(seen: Seq<SeenModel>, name: Seq<char>, i: int)
    requires
        0 <= i <= seen.len(),
        forall|k: int| 0 <= k < i ==> (#[trigger] seen[k]).name != name,
        i < seen.len() ==> seen[i].name == name,
    ensures
        first_seen(seen, name) == i,
{
    lemma_first_seen(seen, name);
    let f = first_seen(seen, name);
    if f < i {
        assert(seen[f].name != name);
    } else if i < f {
        assert(seen[i].name != name);
    }
}

/// The position of the first seen client called `name`.
pub fn find_seen(seen: &Vec<SeenClient>, name: &str) -> (r: Option<usize>)
    ensures
        r is Some <==> has_seen(views(seen@), name@),
        r matches Some(i) ==> i == first_seen(views(seen@), name@) && i < seen@.len(),
{
    let mut i: usize = 0;
    while i < seen.len()
        invariant
            i <= seen.len(),
            forall|k: int| 0 <= k < i ==> (#[trigger] views(seen@)[k]).name != name@,
        decreases seen.len() - i,
    {
        assert(views(seen@)[i as int] == seen@[i as int]@);
        if same_text(seen[i].name.as_str(), name) {
            proof {
                lemma_is_first_seen(views(seen@), name@, i as int);
            }
            return Some(i);
        }
        i = i + 1;
    }
    proof {
        lemma_is_first_seen(views(seen@), name@, i as int);
    }
    None
}

/// The global list as an on/off list of its own.
pub open spec fn global_list(jacks: Seq<JackModel>) -> Map<Seq<char>, bool>
    decreases jacks.len(),
{
    if jacks.len() == 0 {
        Map::empty()
    } else {
        global_list(jacks.drop_last()).insert(jacks.last().name, jacks.last().patched)
    }
}

/// Every name but one.
pub open spec fn other_than(name: Seq<char>) -> spec_fn(Seq<char>) -> bool {
    |f: Seq<char>| f != name
}

/// The list of names without one of them.
pub open spec fn names_without(list: Seq<Seq<char>>, name: Seq<char>) -> Seq<Seq<char>> {
    list.filter(other_than(name))
}

/// The list of names with one more at its end, unless it is there already.
pub open spec fn names_with(list: Seq<Seq<char>>, name: Seq<char>) -> Seq<Seq<char>> {
    if list.contains(name) {
        list
    } else {
        list.push(name)
    }
}

/// The list with each of `names` added in turn.
pub open spec fn names_with_all(list: Seq<Seq<char>>, names: Seq<Seq<char>>) -> Seq<Seq<char>>
    decreases names.len(),
{
    if names.len() == 0 {
        list
    } else {
        names_with(names_with_all(list, names.drop_last()), names.last())
    }
}

/// A client seen for the first time at `now`.
pub open spec fn newly_seen(name: Seq<char>, version: Option<Seq<char>>, now: Seq<char>) -> SeenModel {
    SeenModel { name, first_seen_version: version, first_seen: now, last_seen: Some(now) }
}

impl ConfigModel {
    /// Whether a client has connected before.
    pub open spec fn knows(self, client: Seq<char>) -> bool {
        has_seen(self.seen_clients, client)
    }

    /// With the global switch of one jack set.
    pub open spec fn with_patched(self, jack: Seq<char>, on: bool) -> ConfigModel {
        let i = first_named(self.jacks, jack);
        if has_jack(self.jacks, jack) {
            ConfigModel { jacks: self.jacks.update(i, JackModel { patched: on, ..self.jacks[i] }), ..self }
        } else {
            self
        }
    }

    /// With one jack more, which every own list takes over with its switch.
    pub open spec fn with_jack(self, jack: JackModel) -> ConfigModel {
        ConfigModel {
            jacks: self.jacks.push(jack),
            client_overrides: self.client_overrides.map_values(
                |o: OverrideModel|
                    OverrideModel { enabled: o.enabled, jacks: o.jacks.insert(jack.name, jack.patched) },
            ),
            ..self
        }
    }

    /// Without the jacks of a name, in the global list and in every own list.
    pub open spec fn without_jack(self, name: Seq<char>) -> ConfigModel {
        ConfigModel {
            jacks: self.jacks.filter(|j: JackModel| j.name != name),
            client_overrides: self.client_overrides.map_values(
                |o: OverrideModel| OverrideModel { enabled: o.enabled, jacks: o.jacks.remove(name) },
            ),
            ..self
        }
    }

    /// The own list of a client, or the one it would start with.
    pub open spec fn own_list(self, client: Seq<char>) -> Map<Seq<char>, bool> {
        if self.client_overrides.contains_key(client) {
            self.client_overrides[client].jacks
        } else {
            global_list(self.jacks)
        }
    }

    /// With an own list in use for a client.
    pub open spec fn with_own_list(self, client: Seq<char>, jacks: Map<Seq<char>, bool>) -> ConfigModel {
        ConfigModel {
            client_overrides: self.client_overrides.insert(client, OverrideModel { enabled: true, jacks }),
            ..self
        }
    }

    /// With one jack set in a client's own list, which is in use from then on.
    pub open spec fn with_override(self, client: Seq<char>, jack: Seq<char>, on: bool) -> ConfigModel {
        self.with_own_list(client, self.own_list(client).insert(jack, on))
    }

    /// With a client's own list in use: the one it has, or else one that starts
    /// as the global list.
    pub open spec fn with_custom(self, client: Seq<char>) -> ConfigModel {
        self.with_own_list(client, self.own_list(client))
    }

    /// With a client's own list put aside, and kept.
    pub open spec fn without_custom(self, client: Seq<char>) -> ConfigModel {
        if self.client_overrides.contains_key(client) {
            ConfigModel {
                client_overrides: self.client_overrides.insert(
                    client,
                    OverrideModel { enabled: false, ..self.client_overrides[client] },
                ),
                ..self
            }
        } else {
            self
        }
    }

    /// Without a client's own list.
    pub open spec fn without_override(self, client: Seq<char>) -> ConfigModel {
        ConfigModel { client_overrides: self.client_overrides.remove(client), ..self }
    }

    /// With a client denied, or no longer denied.
    pub open spec fn with_forbidden(self, client: Seq<char>, denied: bool) -> ConfigModel {
        ConfigModel {
            forbidden_clients: if denied {
                names_with(self.forbidden_clients, client)
            } else {
                names_without(self.forbidden_clients, client)
            },
            ..self
        }
    }

    /// With several clients denied, or no longer denied.
    pub open spec fn with_forbidden_all(self, clients: Seq<Seq<char>>, denied: bool) -> ConfigModel {
        ConfigModel {
            forbidden_clients: if denied {
                names_with_all(self.forbidden_clients, clients)
            } else {
                self.forbidden_clients.filter(|f: Seq<char>| !clients.contains(f))
            },
            ..self
        }
    }

    /// With every trace of a client gone.
    pub open spec fn without_client(self, client: Seq<char>) -> ConfigModel {
        ConfigModel {
            seen_clients: self.seen_clients.filter(|c: SeenModel| c.name != client),
            client_overrides: self.client_overrides.remove(client),
            forbidden_clients: names_without(self.forbidden_clients, client),
            ..self
        }
    }

    /// Whether there is any trace of a client.
    pub open spec fn mentions(self, client: Seq<char>) -> bool {
        self.knows(client) || self.client_overrides.contains_key(client) || self.forbidden_clients.contains(
            client,
        )
    }

    /// With a client noted as seen, unless it is already.
    pub open spec fn with_seen(
        self,
        client: Seq<char>,
        version: Option<Seq<char>>,
        now: Seq<char>,
    ) -> ConfigModel {
        if self.knows(client) {
            self
        } else {
            ConfigModel { seen_clients: self.seen_clients.push(newly_seen(client, version, now)), ..self }
        }
    }

    /// With the time of a known client's last sighting set.
    pub open spec fn with_last_seen(self, client: Seq<char>, now: Seq<char>) -> ConfigModel {
        if self.knows(client) {
            let i = first_seen(self.seen_clients, client);
            ConfigModel {
                seen_clients: self.seen_clients.update(
                    i,
                    SeenModel { last_seen: Some(now), ..self.seen_clients[i] },
                ),
                ..self
            }
        } else {
            self
        }
    }

    /// With the user's decision on a client carried out. An allowed client is
    /// seen and not denied; a denied one is denied, and not noted as seen.
    pub open spec fn with_decision(
        self,
        client: Seq<char>,
        version: Option<Seq<char>>,
        now: Seq<char>,
        allowed: bool,
    ) -> ConfigModel {
        if allowed {
            self.with_seen(client, version, now).with_forbidden(client, false)
        } else {
            self.with_forbidden(client, true)
        }
    }
}

/// The list of names without those that are `name`.
pub fn drop_name(list: &Vec<String>, name: &str) -> (r: Vec<String>)
    ensures
        texts(r@) == names_without(texts(list@), name@),
{
    let ghost all = texts(list@);
    let ghost pred = other_than(name@);
    let mut out: Vec<String> = Vec::new();
    proof {
        lemma_filter_none(all, pred);
        assert(texts(out@) =~= Seq::<Seq<char>>::empty());
    }
    let mut i: usize = 0;
    while i < list.len()
        invariant
            i <= list.len(),
            all == texts(list@),
            pred == other_than(name@),
            texts(out@) == all.subrange(0, i as int).filter(pred),
        decreases list.len() - i,
    {
        let ghost prev = texts(out@);
        assert(all[i as int] == list@[i as int]@);
        proof {
            lemma_filter_step(all, pred, i as int);
        }
        if !same_text(list[i].as_str(), name) {
            out.push(list[i].clone());
            assert(texts(out@) =~= prev.push(all[i as int]));
        }
        i = i + 1;
    }
    assert(all.subrange(0, all.len() as int) =~= all);
    out
}

/// The list of names without those that stand in `names`.
pub fn drop_names(list: &Vec<String>, names: &Vec<String>) -> (r: Vec<String>)
    ensures
        texts(r@) == texts(list@).filter(|f: Seq<char>| !texts(names@).contains(f)),
{
    let ghost all = texts(list@);
    let ghost pred = |f: Seq<char>| !texts(names@).contains(f);
    let mut out: Vec<String> = Vec::new();
    proof {
        lemma_filter_none(all, pred);
        assert(texts(out@) =~= Seq::<Seq<char>>::empty());
    }
    let mut i: usize = 0;
    while i < list.len()
        invariant
            i <= list.len(),
            all == texts(list@),
            pred == (|f: Seq<char>| !texts(names@).contains(f)),
            texts(out@) == all.subrange(0, i as int).filter(pred),
        decreases list.len() - i,
    {
        let ghost prev = texts(out@);
        assert(all[i as int] == list@[i as int]@);
        proof {
            lemma_filter_step(all, pred, i as int);
        }
        if !list_has(names, list[i].as_str()) {
            out.push(list[i].clone());
            assert(texts(out@) =~= prev.push(all[i as int]));
        }
        i = i + 1;
    }
    assert(all.subrange(0, all.len() as int) =~= all);
    out
}

/// Add a name to the list unless it is there already.
pub fn add_name(list: &mut Vec<String>, name: &str)
    ensures
        texts(final(list)@) == names_with(texts(old(list)@), name@),
{
    let ghost prev = texts(list@);
    if !list_has(list, name) {
        list.push(name.to_owned());
        assert(texts(list@) =~= prev.push(name@));
    }
}

fn drop_seen(list: &Vec<SeenClient>, name: &str) -> (r: Vec<SeenClient>)
    ensures
        views(r@) == views(list@).filter(|c: SeenModel| c.name != name@),
{
    let ghost all = views(list@);
    let ghost pred = |c: SeenModel| c.name != name@;
    let mut out: Vec<SeenClient> = Vec::new();
    proof {
        lemma_filter_none(all, pred);
        assert(views(out@) =~= Seq::<SeenModel>::empty());
    }
    let mut i: usize = 0;
    while i < list.len()
        invariant
            i <= list.len(),
            all == views(list@),
            pred == (|c: SeenModel| c.name != name@),
            views(out@) == all.subrange(0, i as int).filter(pred),
        decreases list.len() - i,
    {
        let ghost prev = views(out@);
        assert(all[i as int] == list@[i as int]@);
        proof {
            lemma_filter_step(all, pred, i as int);
        }
        if !same_text(list[i].name.as_str(), name) {
            let c = list[i].replica();
            out.push(c);
            assert(views(out@) =~= prev.push(all[i as int]));
        }
        i = i + 1;
    }
    assert(all.subrange(0, all.len() as int) =~= all);
    out
}

fn drop_jack(list: &Vec<JackConfig>, name: &str) -> (r: Vec<JackConfig>)
    ensures
        views(r@) == views(list@).filter(|j: JackModel| j.name != name@),
{
    let ghost all = views(list@);
    let ghost pred = |j: JackModel| j.name != name@;
    let mut out: Vec<JackConfig> = Vec::new();
    proof {
        lemma_filter_none(all, pred);
        assert(views(out@) =~= Seq::<JackModel>::empty());
    }
    let mut i: usize = 0;
    while i < list.len()
        invariant
            i <= list.len(),
            all == views(list@),
            pred == (|j: JackModel| j.name != name@),
            views(out@) == all.subrange(0, i as int).filter(pred),
        decreases list.len() - i,
    {
        let ghost prev = views(out@);
        assert(all[i as int] == list@[i as int]@);
        proof {
            lemma_filter_step(all, pred, i as int);
        }
        if !same_text(list[i].name.as_str(), name) {
            let j = list[i].replica();
            out.push(j);
            assert(views(out@) =~= prev.push(all[i as int]));
        }
        i = i + 1;
    }
    assert(all.subrange(0, all.len() as int) =~= all);
    out
}

/// What becomes of one own list when a jack comes or goes.
pub open spec fn list_changed(jacks: Map<Seq<char>, bool>, name: Seq<char>, seed: Option<bool>) -> Map<
    Seq<char>,
    bool,
> {
    match seed {
        Some(on) => jacks.insert(name, on),
        None => jacks.remove(name),
    }
}

/// Every own list with a jack set to `seed`, or taken out.
fn change_lists(overrides: &NameMap<ClientOverride>, name: &str, seed: Option<bool>) -> (r: NameMap<
    ClientOverride,
>)
    ensures
        r@ == overrides@.map_values(
            |o: OverrideModel|
                OverrideModel { enabled: o.enabled, jacks: list_changed(o.jacks, name@, seed) },
        ),
{
    let ghost goal = overrides@.map_values(
        |o: OverrideModel| OverrideModel { enabled: o.enabled, jacks: list_changed(o.jacks, name@, seed) },
    );
    overrides.facts();
    let ghost pairs = overrides.pairs();
    let n: usize = overrides.len();
    let mut out: NameMap<ClientOverride> = NameMap::new();
    let mut i: usize = 0;
    while i < n
        invariant
            i <= n,
            n == pairs.len(),
            pairs == overrides.pairs(),
            goal == overrides@.map_values(
                |o: OverrideModel|
                    OverrideModel { enabled: o.enabled, jacks: list_changed(o.jacks, name@, seed) },
            ),
            forall|k: int|
                0 <= k < pairs.len() ==> overrides@.contains_key((#[trigger] pairs[k]).0)
                    && overrides@[pairs[k].0] == pairs[k].1,
            forall|k: int| 0 <= k < i ==> out@.contains_key((#[trigger] pairs[k]).0),
            forall|x: Seq<char>| #[trigger]
                out@.contains_key(x) ==> goal.contains_key(x) && out@[x] == goal[x],
        decreases n - i,
    {
        let key = overrides.key_at(i);
        let ovr = overrides.value_at(i);
        assert(pairs[i as int].0 == key@ && pairs[i as int].1 == ovr@);
        let copy = ovr.jacks.copied();
        let jacks = match seed {
            Some(on) => copy.put(name.to_owned(), on),
            None => copy.without(name),
        };
        let next = ClientOverride { enabled: ovr.enabled, jacks };
        assert(next@ == goal[key@]);
        out = out.put(key.clone(), next);
        i = i + 1;
    }
    proof {
        assert forall|x: Seq<char>| goal.contains_key(x) implies out@.contains_key(x) by {
            let k = choose|k: int| 0 <= k < pairs.len() && (#[trigger] pairs[k]).0 == x;
            assert(out@.contains_key(pairs[k].0));
        }
        assert(out@ =~= goal);
    }
    out
}

impl PatchbayConfig {
    /// The global list as an on/off list of its own.
    pub fn global_list(&self) -> (r: NameMap<bool>)
        ensures
            r@ == global_list(self@.jacks),
    {
        let ghost all = self@.jacks;
        let mut out: NameMap<bool> = NameMap::new();
        assert(all.subrange(0, 0) =~= Seq::<JackModel>::empty());
        let mut i: usize = 0;
        while i < self.jacks.len()
            invariant
                i <= self.jacks.len(),
                all == views(self.jacks@),
                out@ == global_list(all.subrange(0, i as int)),
            decreases self.jacks.len() - i,
        {
            let ghost step = all.subrange(0, i + 1);
            assert(step.drop_last() =~= all.subrange(0, i as int));
            assert(step.last() == self.jacks@[i as int]@);
            out = out.put(self.jacks[i].name.clone(), self.jacks[i].patched);
            i = i + 1;
        }
        assert(all.subrange(0, all.len() as int) =~= all);
        out
    }

    pub fn with_patched(&self, jack: &str, on: bool) -> (r: PatchbayConfig)
        ensures
            r@ == self@.with_patched(jack@, on),
    {
        let mut snap = self.replica();
        if let Some(i) = find_jack(&snap.jacks, jack) {
            let ghost prev = views(snap.jacks@);
            let mut j = snap.jacks[i].replica();
            j.patched = on;
            assert(prev[i as int] == snap.jacks@[i as int]@);
            snap.jacks[i] = j;
            assert(views(snap.jacks@) =~= prev.update(i as int, JackModel { patched: on, ..prev[i as int] }));
        }
        snap
    }

    pub fn with_jack(&self, jack: &JackConfig) -> (r: PatchbayConfig)
        ensures
            r@ == self@.with_jack(jack@),
    {
        let mut snap = self.replica();
        let ghost prev = views(snap.jacks@);
        let copy = jack.replica();
        snap.jacks.push(copy);
        assert(views(snap.jacks@) =~= prev.push(jack@));
        snap.client_overrides = change_lists(&self.client_overrides, jack.name.as_str(), Some(jack.patched));
        assert(snap@.client_overrides =~= self@.with_jack(jack@).client_overrides);
        snap
    }

    pub fn without_jack(&self, name: &str) -> (r: PatchbayConfig)
        ensures
            r@ == self@.without_jack(name@),
    {
        let mut snap = self.replica();
        snap.jacks = drop_jack(&self.jacks, name);
        snap.client_overrides = change_lists(&self.client_overrides, name, None);
        assert(snap@.client_overrides =~= self@.without_jack(name@).client_overrides);
        snap
    }

    /// The own list of a client, or the one it would start with.
    fn own_list(&self, client: &str) -> (r: NameMap<bool>)
        ensures
            r@ == self@.own_list(client@),
    {
        match self.client_overrides.get(client) {
            Some(o) => o.jacks.copied(),
            None => self.global_list(),
        }
    }

    fn put_override(&self, client: &str, ovr: ClientOverride) -> (r: PatchbayConfig)
        ensures
            r@ == self@.with_overrides(self@.client_overrides.insert(client@, ovr@)),
    {
        let mut snap = self.replica();
        let m = self.client_overrides.copied();
        snap.client_overrides = m.put(client.to_owned(), ovr);
        snap
    }

    pub fn with_override(&self, client: &str, jack: &str, on: bool) -> (r: PatchbayConfig)
        ensures
            r@ == self@.with_override(client@, jack@, on),
    {
        let jacks = self.own_list(client).put(jack.to_owned(), on);
        self.put_override(client, ClientOverride { enabled: true, jacks })
    }

    pub fn with_custom(&self, client: &str) -> (r: PatchbayConfig)
        ensures
            r@ == self@.with_custom(client@),
    {
        let jacks = self.own_list(client);
        self.put_override(client, ClientOverride { enabled: true, jacks })
    }

    pub fn without_custom(&self, client: &str) -> (r: PatchbayConfig)
        ensures
            r@ == self@.without_custom(client@),
    {
        match self.client_overrides.get(client) {
            Some(o) => self.put_override(client, ClientOverride { enabled: false, jacks: o.jacks.copied() }),
            None => self.replica(),
        }
    }

    pub fn without_override(&self, client: &str) -> (r: PatchbayConfig)
        ensures
            r@ == self@.without_override(client@),
    {
        let mut snap = self.replica();
        let m = self.client_overrides.copied();
        snap.client_overrides = m.without(client);
        snap
    }

    pub fn with_forbidden(&self, client: &str, denied: bool) -> (r: PatchbayConfig)
        ensures
            r@ == self@.with_forbidden(client@, denied),
    {
        let mut snap = self.replica();
        if denied {
            add_name(&mut snap.forbidden_clients, client);
        } else {
            snap.forbidden_clients = drop_name(&self.forbidden_clients, client);
        }
        snap
    }

    pub fn with_forbidden_all(&self, clients: &Vec<String>, denied: bool) -> (r: PatchbayConfig)
        ensures
            r@ == self@.with_forbidden_all(texts(clients@), denied),
    {
        let mut snap = self.replica();
        if denied {
            let ghost all = texts(clients@);
            let ghost start = self@.forbidden_clients;
            let mut list = replicas(&self.forbidden_clients);
            assert(all.subrange(0, 0) =~= Seq::<Seq<char>>::empty());
            let mut i: usize = 0;
            while i < clients.len()
                invariant
                    i <= clients.len(),
                    all == texts(clients@),
                    texts(list@) == names_with_all(start, all.subrange(0, i as int)),
                decreases clients.len() - i,
            {
                let ghost step = all.subrange(0, i + 1);
                assert(step.drop_last() =~= all.subrange(0, i as int));
                assert(step.last() == clients@[i as int]@);
                add_name(&mut list, clients[i].as_str());
                i = i + 1;
            }
            assert(all.subrange(0, all.len() as int) =~= all);
            snap.forbidden_clients = list;
        } else {
            snap.forbidden_clients = drop_names(&self.forbidden_clients, clients);
        }
        snap
    }

    pub fn without_client(&self, client: &str) -> (r: PatchbayConfig)
        ensures
            r@ == self@.without_client(client@),
    {
        let mut snap = self.replica();
        snap.seen_clients = drop_seen(&self.seen_clients, client);
        let m = self.client_overrides.copied();
        snap.client_overrides = m.without(client);
        snap.forbidden_clients = drop_name(&self.forbidden_clients, client);
        snap
    }

    /// Whether a client has connected before.
    pub fn knows(&self, client: &str) -> (r: bool)
        ensures
            r == self@.knows(client@),
    {
        find_seen(&self.seen_clients, client).is_some()
    }

    /// Whether there is any trace of a client.
    pub fn mentions(&self, client: &str) -> (r: bool)
        ensures
            r == self@.mentions(client@),
    {
        self.knows(client) || self.client_overrides.contains_key(client) || list_has(
            &self.forbidden_clients,
            client,
        )
    }

    pub fn with_seen(&self, client: &str, version: Option<&str>, now: &str) -> (r: PatchbayConfig)
        ensures
            r@ == self@.with_seen(client@, name_of(version), now@),
    {
        let mut snap = self.replica();
        if !self.knows(client) {
            let ghost prev = views(snap.seen_clients@);
            let first_seen_version = match version {
                Some(v) => Some(v.to_owned()),
                None => None,
            };
            let c = SeenClient {
                name: client.to_owned(),
                first_seen_version,
                first_seen: now.to_owned(),
                last_seen: Some(now.to_owned()),
            };
            snap.seen_clients.push(c);
            assert(views(snap.seen_clients@) =~= prev.push(newly_seen(client@, name_of(version), now@)));
        }
        snap
    }

    pub fn with_last_seen(&self, client: &str, now: &str) -> (r: PatchbayConfig)
        ensures
            r@ == self@.with_last_seen(client@, now@),
    {
        let mut snap = self.replica();
        if let Some(i) = find_seen(&snap.seen_clients, client) {
            let ghost prev = views(snap.seen_clients@);
            let mut c = snap.seen_clients[i].replica();
            c.last_seen = Some(now.to_owned());
            assert(prev[i as int] == snap.seen_clients@[i as int]@);
            snap.seen_clients[i] = c;
            assert(views(snap.seen_clients@) =~= prev.update(
                i as int,
                SeenModel { last_seen: Some(now@), ..prev[i as int] },
            ));
        }
        snap
    }

    pub fn with_decision(&self, client: &str, version: Option<&str>, now: &str, allowed: bool) -> (r:
        PatchbayConfig)
        ensures
            r@ == self@.with_decision(client@, name_of(version), now@, allowed),
    {
        if allowed {
            self.with_seen(client, version, now).with_forbidden(client, false)
        } else {
            self.with_forbidden(client, true)
        }
    }
}

impl ConfigModel {
    /// With other own lists, and all else the same.
    pub open spec fn with_overrides(self, client_overrides: Map<Seq<char>, OverrideModel>) -> ConfigModel {
        ConfigModel { client_overrides, ..self }
    }
}

} // verus!
