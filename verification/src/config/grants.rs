//! What the configuration grants: which client may reach which jack, and which
//! jacks must be running at all.

use vstd::prelude::*;

use super::schema::{ClientOverride, ConfigModel, JackConfig, JackModel, OverrideModel, PatchbayConfig};
use crate::name_map::{in_order, pair_keys, views, NameMap};
use crate::text::{same_text, texts};

verus! {

/// The position of the first jack of a name; the number of jacks where there
/// is none.
pub open spec fn first_named(jacks: Seq<JackModel>, name: Seq<char>) -> int
    decreases jacks.len(),
{
    if jacks.len() == 0 || jacks[0].name == name {
        0
    } else {
        1 + first_named(jacks.drop_first(), name)
    }
}

/// Whether some jack has the name.
pub open spec fn has_jack(jacks: Seq<JackModel>, name: Seq<char>) -> bool {
    first_named(jacks, name) < jacks.len()
}

/// The names of the jacks, in display order.
pub open spec fn jack_names(jacks: Seq<JackModel>) -> Seq<Seq<char>> {
    jacks.map_values(|j: JackModel| j.name)
}

pub proof fn lemma_first_named(jacks: Seq<JackModel>, name: Seq<char>)
    ensures
        0 <= first_named(jacks, name) <= jacks.len(),
        has_jack(jacks, name) ==> jacks[first_named(jacks, name)].name == name,
        forall|k: int| 0 <= k < first_named(jacks, name) ==> (#[trigger] jacks[k]).name != name,
        has_jack(jacks, name) <==> jack_names(jacks).contains(name),
        has_jack(jacks, name) <==> jack_names(jacks).to_set().contains(name),
    decreases jacks.len(),
{
    if jacks.len() > 0 && jacks[0].name != name {
        let rest = jacks.drop_first();
        lemma_first_named(rest, name);
        assert forall|k: int| 0 <= k < first_named(jacks, name) implies (#[trigger] jacks[k]).name != name by {
            if k > 0 {
                assert(rest[k - 1] == jacks[k]);
            }
        }
        if jack_names(jacks).contains(name) {
            let k = choose|k: int| 0 <= k < jacks.len() && jack_names(jacks)[k] == name;
            assert(jack_names(rest)[k - 1] == name);
        }
    }
    if has_jack(jacks, name) {
        assert(jack_names(jacks)[first_named(jacks, name)] == name);
    }
}

/// A position with the name and none before it is the first.
pub proof fn lemma_is_first_named(jacks: Seq<JackModel>, name: Seq<char>, i: int)
    requires
        0 <= i <= jacks.len(),
        forall|k: int| 0 <= k < i ==> (#[trigger] jacks[k]).name != name,
        i < jacks.len() ==> jacks[i].name == name,
    ensures
        first_named(jacks, name) == i,
{
    lemma_first_named(jacks, name);
    let f = first_named(jacks, name);
    if f < i {
        assert(jacks[f].name != name);
    } else if i < f {
        assert(jacks[i].name != name);
    }
}

impl ConfigModel {
    /// The global switch of a jack; off where there is no such jack.
    pub open spec fn global_patched(self, jack: Seq<char>) -> bool {
        has_jack(self.jacks, jack) && self.jacks[first_named(self.jacks, jack)].patched
    }

    /// Whether an identity was denied. No identity is never denied.
    pub open spec fn forbids(self, client: Option<Seq<char>>) -> bool {
        match client {
            Some(name) => self.forbidden_clients.contains(name),
            None => false,
        }
    }

    /// Whether a client uses its own list in place of the global one.
    pub open spec fn customizes(self, client: Seq<char>) -> bool {
        self.client_overrides.contains_key(client) && self.client_overrides[client].enabled
    }

    /// Whether a client may reach a jack. A denied client reaches nothing. A
    /// client with its own list reaches what that list switches on, and a jack
    /// that the list does not name is off for it. Any other client follows the
    /// global switch.
    pub open spec fn grants(self, jack: Seq<char>, client: Option<Seq<char>>) -> bool {
        if self.forbids(client) {
            false
        } else if client is Some && self.customizes(client->0) {
            self.client_overrides[client->0].jacks.get(jack) == Some(true)
        } else {
            self.global_patched(jack)
        }
    }

    /// Whether `client`'s own list is a reason to keep `jack` running.
    pub open spec fn keeps_running(self, jack: Seq<char>, client: Seq<char>) -> bool {
        &&& self.customizes(client)
        &&& !self.forbids(Some(client))
        &&& self.client_overrides[client].jacks.get(jack) == Some(true)
    }

    /// Whether anybody needs the jack to run: it is on globally, or on for some
    /// client that has its own list and is not denied.
    pub open spec fn should_run(self, jack: Seq<char>) -> bool {
        self.global_patched(jack) || exists|client: Seq<char>| self.keeps_running(jack, client)
    }

    /// The clients with their own list, the denied ones left out.
    pub open spec fn custom_clients(self) -> Set<Seq<char>> {
        self.client_overrides.dom().filter(
            |c: Seq<char>| self.customizes(c) && !self.forbids(Some(c)),
        )
    }

    /// Every client's own list names exactly the jacks that exist.
    pub open spec fn overrides_mirror_jacks(self) -> bool {
        forall|c: Seq<char>| #[trigger]
            self.client_overrides.contains_key(c) ==> self.client_overrides[c].jacks.dom()
                =~= jack_names(self.jacks).to_set()
    }
}

/// Whatever a client may reach is kept running for it.
pub proof fn granted_jacks_run(m: ConfigModel, jack: Seq<char>, client: Option<Seq<char>>)
    requires
        m.grants(jack, client),
    ensures
        m.should_run(jack),
{
    if client is Some && m.customizes(client->0) {
        assert(m.keeps_running(jack, client->0));
    }
}

/// A denied client reaches no jack at all.
pub proof fn denied_client_reaches_nothing(m: ConfigModel, client: Seq<char>)
    requires
        m.forbids(Some(client)),
    ensures
        forall|jack: Seq<char>| !(#[trigger] m.grants(jack, Some(client))),
{
}

/// What runs, runs for somebody: the global list, or a client that reaches it.
pub proof fn running_jacks_are_granted(m: ConfigModel, jack: Seq<char>)
    requires
        m.should_run(jack),
    ensures
        m.global_patched(jack) || exists|client: Seq<char>| #[trigger] m.grants(jack, Some(client)),
{
    if !m.global_patched(jack) {
        let c = choose|client: Seq<char>| m.keeps_running(jack, client);
        assert(m.grants(jack, Some(c)));
    }
}

/// The position of the first jack called `name`.
pub fn find_jack(jacks: &Vec<JackConfig>, name: &str) -> (r: Option<usize>)
    ensures
        r is Some <==> has_jack(views(jacks@), name@),
        r matches Some(i) ==> i == first_named(views(jacks@), name@) && i < jacks@.len(),
{
    let mut i: usize = 0;
    while i < jacks.len()
        invariant
            i <= jacks.len(),
            forall|k: int| 0 <= k < i ==> (#[trigger] views(jacks@)[k]).name != name@,
        decreases jacks.len() - i,
    {
        assert(views(jacks@)[i as int] == jacks@[i as int]@);
        if same_text(jacks[i].name.as_str(), name) {
            proof {
                lemma_is_first_named(views(jacks@), name@, i as int);
            }
            return Some(i);
        }
        i = i + 1;
    }
    proof {
        lemma_is_first_named(views(jacks@), name@, i as int);
    }
    None
}

/// Whether `name` is one of the names listed.
pub fn list_has(list: &Vec<String>, name: &str) -> (r: bool)
    ensures
        r == texts(list@).contains(name@),
{
    let mut i: usize = 0;
    while i < list.len()
        invariant
            i <= list.len(),
            forall|k: int| 0 <= k < i ==> #[trigger] texts(list@)[k] != name@,
        decreases list.len() - i,
    {
        assert(texts(list@)[i as int] == list@[i as int]@);
        if same_text(list[i].as_str(), name) {
            return true;
        }
        i = i + 1;
    }
    false
}

/// The model of an optional name.
pub open spec fn name_of(o: Option<&str>) -> Option<Seq<char>> {
    match o {
        Some(s) => Some(s@),
        None => None,
    }
}

impl PatchbayConfig {
    /// The names of the jacks, in display order.
    pub fn jack_names(&self) -> (r: Vec<String>)
        ensures
            texts(r@) == jack_names(self@.jacks),
    {
        let mut out: Vec<String> = Vec::new();
        let mut i: usize = 0;
        while i < self.jacks.len()
            invariant
                i <= self.jacks.len(),
                texts(out@) == jack_names(self@.jacks).subrange(0, i as int),
            decreases self.jacks.len() - i,
        {
            let ghost prev = texts(out@);
            out.push(self.jacks[i].name.clone());
            assert(texts(out@) =~= prev.push(self.jacks@[i as int].name@));
            i = i + 1;
            assert(texts(out@) =~= jack_names(self@.jacks).subrange(0, i as int));
        }
        assert(texts(out@) =~= jack_names(self@.jacks));
        out
    }

    /// The global switch of a jack; off where there is no such jack.
    pub fn global_patched(&self, jack_name: &str) -> (r: bool)
        ensures
            r == self@.global_patched(jack_name@),
    {
        match find_jack(&self.jacks, jack_name) {
            Some(i) => {
                assert(views(self.jacks@)[i as int] == self.jacks@[i as int]@);
                self.jacks[i].patched
            },
            None => false,
        }
    }

    /// Whether a client identity has been denied. Names match exactly.
    pub fn is_forbidden(&self, client_name: Option<&str>) -> (r: bool)
        ensures
            r == self@.forbids(name_of(client_name)),
    {
        match client_name {
            Some(name) => list_has(&self.forbidden_clients, name),
            None => false,
        }
    }

    /// Whether a connecting client may reach a jack.
    pub fn effective_patched(&self, jack_name: &str, client_name: Option<&str>) -> (r: bool)
        ensures
            r == self@.grants(jack_name@, name_of(client_name)),
    {
        if self.is_forbidden(client_name) {
            return false;
        }
        if let Some(name) = client_name {
            if let Some(ovr) = self.client_overrides.get(name) {
                if ovr.enabled {
                    return match ovr.jacks.get(jack_name) {
                        Some(on) => *on,
                        None => false,
                    };
                }
            }
        }
        self.global_patched(jack_name)
    }

    /// Whether the shared child of a jack should be running for anybody.
    pub fn should_run_jack(&self, jack_name: &str) -> (r: bool)
        ensures
            r == self@.should_run(jack_name@),
    {
        if self.global_patched(jack_name) {
            return true;
        }
        self.client_overrides.facts();
        let n: usize = self.client_overrides.len();
        let mut i: usize = 0;
        while i < n
            invariant
                i <= n,
                n == self.client_overrides.pairs().len(),
                forall|k: int|
                    0 <= k < self.client_overrides.pairs().len() ==> self.client_overrides@.contains_key(
                        (#[trigger] self.client_overrides.pairs()[k]).0,
                    ) && self.client_overrides@[self.client_overrides.pairs()[k].0]
                        == self.client_overrides.pairs()[k].1,
                forall|k: int|
                    0 <= k < i ==> !self@.keeps_running(
                        jack_name@,
                        (#[trigger] self.client_overrides.pairs()[k]).0,
                    ),
            decreases n - i,
        {
            let client = self.client_overrides.key_at(i);
            let ovr = self.client_overrides.value_at(i);
            let ghost pair = self.client_overrides.pairs()[i as int];
            if ovr.enabled && !self.is_forbidden(Some(client.as_str())) {
                if let Some(on) = ovr.jacks.get(jack_name) {
                    if *on {
                        assert(self@.keeps_running(jack_name@, pair.0));
                        return true;
                    }
                }
            }
            i = i + 1;
        }
        proof {
            assert forall|c: Seq<char>| !self@.keeps_running(jack_name@, c) by {
                if self@.keeps_running(jack_name@, c) {
                    let k = choose|k: int|
                        0 <= k < self.client_overrides.pairs().len()
                            && (#[trigger] self.client_overrides.pairs()[k]).0 == c;
                    assert(!self@.keeps_running(jack_name@, self.client_overrides.pairs()[k].0));
                }
            }
        }
        false
    }
}

impl ConfigModel {
    /// An on/off list named after exactly the jacks that exist: a jack that
    /// `list` names keeps its value there, and any other is off, or with
    /// `seed_global` takes its global switch.
    pub open spec fn rekeyed(self, list: Map<Seq<char>, bool>, seed_global: bool) -> Map<
        Seq<char>,
        bool,
    > {
        Map::new(
            |k: Seq<char>| jack_names(self.jacks).to_set().contains(k),
            |k: Seq<char>|
                if list.contains_key(k) {
                    list[k]
                } else {
                    seed_global && self.global_patched(k)
                },
        )
    }

    /// How many names of `list` are no jack, and how many jacks it lacks.
    pub open spec fn repairs_in(self, list: Map<Seq<char>, bool>) -> nat {
        let names = jack_names(self.jacks).to_set();
        list.dom().difference(names).len() + names.difference(list.dom()).len()
    }

    /// The repairs in the own lists of `clients`.
    pub open spec fn repairs_of(self, clients: Seq<Seq<char>>) -> nat
        decreases clients.len(),
    {
        if clients.len() == 0 {
            0
        } else {
            self.repairs_of(clients.drop_last()) + self.repairs_in(
                self.client_overrides[clients.last()].jacks,
            )
        }
    }

    /// The repairs in all the own lists.
    pub open spec fn repairs(self) -> nat {
        self.repairs_of(in_order(self.client_overrides.dom()))
    }

    /// The configuration with every own list re-keyed after the jacks that
    /// exist; what a list lacked is off.
    pub open spec fn synced(self) -> ConfigModel {
        ConfigModel {
            client_overrides: self.client_overrides.map_values(
                |o: OverrideModel|
                    OverrideModel { enabled: o.enabled, jacks: self.rekeyed(o.jacks, false) },
            ),
            ..self
        }
    }
}

pub open spec fn capped(n: nat) -> usize {
    if n <= usize::MAX {
        n as usize
    } else {
        usize::MAX
    }
}

fn add_capped(a: usize, b: usize, Ghost(x): Ghost<nat>, Ghost(y): Ghost<nat>) -> (r: usize)
    requires
        a == capped(x),
        b == capped(y),
    ensures
        r == capped(x + y),
{
    if a > usize::MAX - b {
        usize::MAX
    } else {
        a + b
    }
}

impl PatchbayConfig {
    /// `list` re-keyed after the jacks that exist, with the number of names
    /// that it lost and gained.
    pub(crate) fn rekey(&self, list: &NameMap<bool>, seed_global: bool) -> (r: (NameMap<bool>, usize))
        ensures
            r.0@ == self@.rekeyed(list@, seed_global),
            r.1 == capped(self@.repairs_in(list@)),
    {
        let names = self.jack_names();
        let ghost all = jack_names(self@.jacks);
        let ghost pairs = list.pairs();
        let ghost names_set = all.to_set();
        list.facts();
        let mut out: NameMap<bool> = NameMap::new();
        let mut dropped: usize = 0;
        let ghost mut lost: Set<Seq<char>> = Set::empty();
        let n: usize = list.len();
        let mut i: usize = 0;
        while i < n
            invariant
                i <= n,
                n == pairs.len(),
                pairs == list.pairs(),
                texts(names@) == all,
                names_set == all.to_set(),
                crate::name_map::ascending(pair_keys(pairs)),
                forall|k: int|
                    0 <= k < pairs.len() ==> list@.contains_key((#[trigger] pairs[k]).0)
                        && list@[pairs[k].0] == pairs[k].1,
                lost.finite(),
                lost.len() == dropped,
                dropped <= i,
                forall|x: Seq<char>| #[trigger]
                    lost.contains(x) <==> !names_set.contains(x) && exists|k: int|
                        0 <= k < i && (#[trigger] pairs[k]).0 == x,
                forall|x: Seq<char>| #[trigger]
                    out@.contains_key(x) <==> names_set.contains(x) && exists|k: int|
                        0 <= k < i && (#[trigger] pairs[k]).0 == x,
                forall|x: Seq<char>| #[trigger]
                    out@.contains_key(x) ==> list@.contains_key(x) && out@[x] == list@[x],
            decreases n - i,
        {
            let key = list.key_at(i);
            let ghost lost_before = lost;
            let ghost out_before = out@;
            assert(pairs[i as int].0 == key@);
            if list_has(&names, key.as_str()) {
                out = out.put(key.clone(), *list.value_at(i));
            } else {
                assert(!lost.contains(key@)) by {
                    if lost.contains(key@) {
                        let k = choose|k: int| 0 <= k < i && (#[trigger] pairs[k]).0 == key@;
                        assert(pair_keys(pairs)[k] == pair_keys(pairs)[i as int]);
                        crate::name_map::before_irreflexive(key@);
                    }
                }
                proof {
                    lost = lost.insert(key@);
                }
                dropped = dropped + 1;
            }
            i = i + 1;
            proof {
                assert forall|x: Seq<char>| #[trigger]
                    lost.contains(x) <==> !names_set.contains(x) && exists|k: int|
                        0 <= k < i && (#[trigger] pairs[k]).0 == x by {
                    lemma_prefix_step(pairs, i - 1, x);
                    assert(lost_before.contains(x) <==> !names_set.contains(x) && exists|k: int|
                        0 <= k < i - 1 && (#[trigger] pairs[k]).0 == x);
                }
                assert forall|x: Seq<char>| #[trigger]
                    out@.contains_key(x) <==> names_set.contains(x) && exists|k: int|
                        0 <= k < i && (#[trigger] pairs[k]).0 == x by {
                    lemma_prefix_step(pairs, i - 1, x);
                    assert(out_before.contains_key(x) <==> names_set.contains(x) && exists|k: int|
                        0 <= k < i - 1 && (#[trigger] pairs[k]).0 == x);
                }
            }
        }
        assert(lost =~= list@.dom().difference(names_set));
        let ghost mut gained: Set<Seq<char>> = Set::empty();
        let mut added: usize = 0;
        let mut j: usize = 0;
        while j < names.len()
            invariant
                j <= names.len(),
                texts(names@) == all,
                all == jack_names(self@.jacks),
                names_set == all.to_set(),
                gained.finite(),
                gained.len() == added,
                added <= j,
                gained.subset_of(names_set.difference(list@.dom())),
                forall|x: Seq<char>| #[trigger]
                    out@.contains_key(x) <==> (names_set.contains(x) && list@.contains_key(x))
                        || gained.contains(x),
                forall|k: int| 0 <= k < j ==> out@.contains_key(#[trigger] all[k]),
                forall|x: Seq<char>| #[trigger]
                    out@.contains_key(x) ==> out@[x] == (if list@.contains_key(x) {
                        list@[x]
                    } else {
                        seed_global && self@.global_patched(x)
                    }),
            decreases names.len() - j,
        {
            assert(all[j as int] == names@[j as int]@);
            assert(names_set.contains(all[j as int]));
            if !out.contains_key(names[j].as_str()) {
                let seed = if seed_global {
                    self.global_patched(names[j].as_str())
                } else {
                    false
                };
                out = out.put(names[j].clone(), seed);
                proof {
                    gained = gained.insert(all[j as int]);
                }
                added = added + 1;
            }
            j = j + 1;
        }
        proof {
            assert(names_set.difference(list@.dom()) =~= gained) by {
                assert forall|x: Seq<char>| names_set.difference(list@.dom()).contains(x) implies gained.contains(
                    x,
                ) by {
                    let k = choose|k: int| 0 <= k < all.len() && all[k] == x;
                    assert(out@.contains_key(all[k]));
                }
            }
            assert forall|x: Seq<char>| names_set.contains(x) implies out@.contains_key(x) by {
                let k = choose|k: int| 0 <= k < all.len() && all[k] == x;
                assert(out@.contains_key(all[k]));
            }
            assert(out@ =~= self@.rekeyed(list@, seed_global));
        }
        let total = add_capped(dropped, added, Ghost(lost.len()), Ghost(gained.len()));
        (out, total)
    }
}

proof fn lemma_prefix_step<W>(pairs: Seq<(Seq<char>, W)>, i: int, x: Seq<char>)
    requires
        0 <= i < pairs.len(),
    ensures
        (exists|k: int| 0 <= k < i + 1 && (#[trigger] pairs[k]).0 == x) <==> (pairs[i].0 == x || exists|
            k: int,
        |
            0 <= k < i && (#[trigger] pairs[k]).0 == x),
{
    if exists|k: int| 0 <= k < i + 1 && (#[trigger] pairs[k]).0 == x {
        let k = choose|k: int| 0 <= k < i + 1 && (#[trigger] pairs[k]).0 == x;
        assert(k < i || pairs[i].0 == x);
    }
    if pairs[i].0 == x {
        assert(0 <= i < i + 1 && pairs[i].0 == x);
    }
}

impl PatchbayConfig {
    /// Re-key every client's own list after the jacks that exist. A name that
    /// is no jack is dropped, and a jack that the list lacked is switched off
    /// in it. Returns the number of entries added or dropped.
    pub fn sync_override_jacks(&mut self) -> (r: usize)
        ensures
            final(self)@ == old(self)@.synced(),
            r == capped(old(self)@.repairs()),
    {
        self.client_overrides.facts();
        let ghost m = self@;
        let ghost pairs = self.client_overrides.pairs();
        let ghost keys = pair_keys(pairs);
        let n: usize = self.client_overrides.len();
        let mut out: NameMap<ClientOverride> = NameMap::new();
        let mut repairs: usize = 0;
        let mut i: usize = 0;
        while i < n
            invariant
                i <= n,
                self@ == m,
                n == pairs.len(),
                pairs == self.client_overrides.pairs(),
                keys == pair_keys(pairs),
                crate::name_map::ascending(keys),
                forall|k: int|
                    0 <= k < pairs.len() ==> m.client_overrides.contains_key((#[trigger] pairs[k]).0)
                        && m.client_overrides[pairs[k].0] == pairs[k].1,
                repairs == capped(m.repairs_of(keys.subrange(0, i as int))),
                forall|x: Seq<char>| #[trigger]
                    out@.contains_key(x) <==> exists|k: int| 0 <= k < i && (#[trigger] pairs[k]).0 == x,
                forall|x: Seq<char>| #[trigger]
                    out@.contains_key(x) ==> m.synced().client_overrides.contains_key(x) && out@[x]
                        == m.synced().client_overrides[x],
            decreases n - i,
        {
            let key = self.client_overrides.key_at(i);
            let ovr = self.client_overrides.value_at(i);
            let ghost out_before = out@;
            let (jacks, count) = self.rekey(&ovr.jacks, false);
            let fresh = ClientOverride { enabled: ovr.enabled, jacks };
            assert(pairs[i as int].0 == key@ && pairs[i as int].1 == ovr@);
            assert(fresh@ == m.synced().client_overrides[key@]);
            let ghost step = keys.subrange(0, i + 1);
            assert(step.drop_last() =~= keys.subrange(0, i as int));
            assert(step.last() == key@);
            repairs = add_capped(
                repairs,
                count,
                Ghost(m.repairs_of(keys.subrange(0, i as int))),
                Ghost(m.repairs_in(ovr@.jacks)),
            );
            out = out.put(key.clone(), fresh);
            i = i + 1;
            proof {
                assert forall|x: Seq<char>| #[trigger]
                    out@.contains_key(x) <==> exists|k: int| 0 <= k < i && (#[trigger] pairs[k]).0 == x by {
                    lemma_prefix_step(pairs, i - 1, x);
                    assert(out_before.contains_key(x) <==> exists|k: int|
                        0 <= k < i - 1 && (#[trigger] pairs[k]).0 == x);
                }
            }
        }
        proof {
            assert(keys.subrange(0, n as int) =~= keys);
            assert(out@ =~= m.synced().client_overrides);
        }
        self.client_overrides = out;
        repairs
    }

    /// Number of clients that use their own list. A denied client is not
    /// counted: the denial takes precedence.
    pub fn custom_client_count(&self) -> (r: usize)
        ensures
            r == self@.custom_clients().len(),
    {
        self.client_overrides.facts();
        let ghost m = self@;
        let ghost pairs = self.client_overrides.pairs();
        let n: usize = self.client_overrides.len();
        let mut count: usize = 0;
        let ghost mut found: Set<Seq<char>> = Set::empty();
        let mut i: usize = 0;
        while i < n
            invariant
                i <= n,
                m == self@,
                n == pairs.len(),
                pairs == self.client_overrides.pairs(),
                crate::name_map::ascending(pair_keys(pairs)),
                forall|k: int|
                    0 <= k < pairs.len() ==> m.client_overrides.contains_key((#[trigger] pairs[k]).0)
                        && m.client_overrides[pairs[k].0] == pairs[k].1,
                found.finite(),
                found.len() == count,
                count <= i,
                forall|x: Seq<char>| #[trigger]
                    found.contains(x) <==> m.custom_clients().contains(x) && exists|k: int|
                        0 <= k < i && (#[trigger] pairs[k]).0 == x,
            decreases n - i,
        {
            let key = self.client_overrides.key_at(i);
            let ovr = self.client_overrides.value_at(i);
            let ghost before = found;
            assert(pairs[i as int].0 == key@ && pairs[i as int].1 == ovr@);
            if ovr.enabled && !self.is_forbidden(Some(key.as_str())) {
                assert(!found.contains(key@)) by {
                    if found.contains(key@) {
                        let k = choose|k: int| 0 <= k < i && (#[trigger] pairs[k]).0 == key@;
                        assert(pair_keys(pairs)[k] == pair_keys(pairs)[i as int]);
                        crate::name_map::before_irreflexive(key@);
                    }
                }
                proof {
                    found = found.insert(key@);
                }
                count = count + 1;
            }
            i = i + 1;
            proof {
                assert forall|x: Seq<char>| #[trigger]
                    found.contains(x) <==> m.custom_clients().contains(x) && exists|k: int|
                        0 <= k < i && (#[trigger] pairs[k]).0 == x by {
                    lemma_prefix_step(pairs, i - 1, x);
                    assert(before.contains(x) <==> m.custom_clients().contains(x) && exists|k: int|
                        0 <= k < i - 1 && (#[trigger] pairs[k]).0 == x);
                }
            }
        }
        assert(found =~= self@.custom_clients());
        count
    }
}

/// After the repair every own list names exactly the jacks that exist, and a
/// second repair finds nothing to do.
pub proof fn sync_is_complete(m: ConfigModel)
    ensures
        m.synced().overrides_mirror_jacks(),
        m.synced().synced() == m.synced(),
        m.client_overrides.dom().finite() ==> m.synced().repairs() == 0,
{
    let s = m.synced();
    assert forall|c: Seq<char>| #[trigger] s.client_overrides.contains_key(c) implies s.client_overrides[c].jacks.dom()
        =~= jack_names(s.jacks).to_set() by {}
    assert forall|c: Seq<char>| #[trigger] s.client_overrides.contains_key(c) implies s.synced().client_overrides[c]
        == s.client_overrides[c] by {
        assert(s.synced().client_overrides[c].jacks =~= s.client_overrides[c].jacks);
    }
    assert(s.synced().client_overrides =~= s.client_overrides);
    if m.client_overrides.dom().finite() {
        assert(s.client_overrides.dom() =~= m.client_overrides.dom());
        let keys = in_order(s.client_overrides.dom());
        crate::name_map::in_order_lists(s.client_overrides.dom());
        lemma_no_repairs(s, keys);
    }
}

proof fn lemma_no_repairs(s: ConfigModel, keys: Seq<Seq<char>>)
    requires
        s.overrides_mirror_jacks(),
        forall|i: int| 0 <= i < keys.len() ==> s.client_overrides.contains_key(#[trigger] keys[i]),
    ensures
        s.repairs_of(keys) == 0,
    decreases keys.len(),
{
    if keys.len() > 0 {
        let front = keys.drop_last();
        assert forall|i: int| 0 <= i < front.len() implies s.client_overrides.contains_key(#[trigger] front[i]) by {
            assert(front[i] == keys[i]);
        }
        lemma_no_repairs(s, front);
        assert(s.client_overrides.contains_key(keys[keys.len() - 1]));
        let d = s.client_overrides[keys.last()].jacks.dom();
        let names = jack_names(s.jacks).to_set();
        assert(d =~= names);
        assert(d.difference(names) =~= Set::empty());
        assert(names.difference(d) =~= Set::empty());
    }
}

/// The repair hands out nothing: what a client may reach after it, that client
/// could reach before, and what a list said of a jack that exists it still says.
pub proof fn sync_never_grants(m: ConfigModel, jack: Seq<char>, client: Option<Seq<char>>)
    ensures
        m.synced().grants(jack, client) ==> m.grants(jack, client),
        has_jack(m.jacks, jack) ==> m.synced().grants(jack, client) == m.grants(jack, client),
        m.synced().should_run(jack) ==> m.should_run(jack),
{
    let s = m.synced();
    lemma_first_named(m.jacks, jack);
    assert forall|c: Seq<char>| s.keeps_running(jack, c) implies m.keeps_running(jack, c) by {}
    if s.should_run(jack) && !s.global_patched(jack) {
        let c = choose|c: Seq<char>| s.keeps_running(jack, c);
        assert(m.keeps_running(jack, c));
    }
}

/// A repair is needed exactly where some own list does not name the jacks that exist.
pub proof fn repairs_are_counted(m: ConfigModel)
    requires
        m.client_overrides.dom().finite(),
        forall|c: Seq<char>| #[trigger] m.client_overrides.contains_key(c) ==> m.client_overrides[c].jacks.dom().finite(),
    ensures
        m.repairs() == 0 <==> m.overrides_mirror_jacks(),
{
    let keys = in_order(m.client_overrides.dom());
    crate::name_map::in_order_lists(m.client_overrides.dom());
    lemma_repairs_of(m, keys);
    if m.repairs() == 0 {
        assert forall|c: Seq<char>| #[trigger] m.client_overrides.contains_key(c) implies m.client_overrides[c].jacks.dom()
            =~= jack_names(m.jacks).to_set() by {
            assert(keys.to_set().contains(c));
            let i = choose|i: int| 0 <= i < keys.len() && keys[i] == c;
            assert(m.repairs_in(m.client_overrides[keys[i]].jacks) == 0);
            lemma_repairs_in(m, m.client_overrides[c].jacks);
        }
    }
    if m.overrides_mirror_jacks() {
        lemma_no_repairs(m, keys);
    }
}

proof fn lemma_repairs_in(m: ConfigModel, list: Map<Seq<char>, bool>)
    requires
        list.dom().finite(),
        m.repairs_in(list) == 0,
    ensures
        list.dom() =~= jack_names(m.jacks).to_set(),
{
    let names = jack_names(m.jacks).to_set();
    jack_names(m.jacks).lemma_cardinality_of_set();
    assert(names.finite());
    let a = list.dom().difference(names);
    let b = names.difference(list.dom());
    assert(a.finite() && b.finite());
    assert forall|k: Seq<char>| list.dom().contains(k) implies names.contains(k) by {
        if !names.contains(k) {
            assert(a.contains(k));
            assert(a.len() == 0);
            vstd::set_lib::lemma_set_empty_equivalency_len(a);
        }
    }
    assert forall|k: Seq<char>| names.contains(k) implies list.dom().contains(k) by {
        if !list.dom().contains(k) {
            assert(b.contains(k));
            assert(b.len() == 0);
            vstd::set_lib::lemma_set_empty_equivalency_len(b);
        }
    }
}

proof fn lemma_repairs_of(m: ConfigModel, keys: Seq<Seq<char>>)
    ensures
        m.repairs_of(keys) == 0 <==> forall|i: int|
            0 <= i < keys.len() ==> m.repairs_in(m.client_overrides[#[trigger] keys[i]].jacks) == 0,
    decreases keys.len(),
{
    if keys.len() > 0 {
        let front = keys.drop_last();
        lemma_repairs_of(m, front);
        if m.repairs_of(keys) == 0 {
            assert forall|i: int| 0 <= i < keys.len() implies m.repairs_in(m.client_overrides[#[trigger] keys[i]].jacks)
                == 0 by {
                if i < front.len() {
                    assert(front[i] == keys[i]);
                }
            }
        }
        if forall|i: int| 0 <= i < keys.len() ==> m.repairs_in(m.client_overrides[#[trigger] keys[i]].jacks) == 0 {
            assert forall|i: int| 0 <= i < front.len() implies m.repairs_in(m.client_overrides[#[trigger] front[i]].jacks)
                == 0 by {
                assert(front[i] == keys[i]);
            }
            assert(m.repairs_in(m.client_overrides[keys[keys.len() - 1]].jacks) == 0);
        }
    }
}

} // verus!
