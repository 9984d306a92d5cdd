//! What holds of the changes to a configuration, taken one by one and in turn.

use vstd::prelude::*;

use super::changes::{
    first_seen, global_list, lemma_first_seen, lemma_is_first_seen, names_with, names_with_all, names_without, other_than,
};
use super::grants::{first_named, has_jack, jack_names, lemma_first_named, lemma_is_first_named};
use super::schema::{ConfigModel, JackModel, SeenModel};
use crate::name_map::{lemma_filter_holds, lemma_filter_same};

verus! {

/// Denying a client and then no longer denying it leaves it not denied, and
/// where it was not denied before, everything as it was.
pub proof fn denial_round_trip(c: ConfigModel, client: Seq<char>)
    ensures
        c.with_forbidden(client, true).forbids(Some(client)),
        !c.with_forbidden(client, false).forbids(Some(client)),
        !c.forbids(Some(client)) ==> c.with_forbidden(client, true).with_forbidden(client, false) == c,
        c.with_forbidden(client, true).with_forbidden(client, true) == c.with_forbidden(client, true),
        c.with_forbidden(client, false).with_forbidden(client, false) == c.with_forbidden(client, false),
{
    let list = c.forbidden_clients;
    let pred = other_than(client);
    lemma_filter_holds(list, pred, client);
    let denied = names_with(list, client);
    if !list.contains(client) {
        assert(denied[denied.len() - 1] == client);
        assert(names_without(denied, client) =~= list) by {
            reveal(Seq::filter);
            assert(denied.drop_last() =~= list);
            assert forall|i: int| 0 <= i < list.len() implies pred(#[trigger] list[i]) by {
                if list[i] == client {
                    assert(list.contains(client));
                }
            }
            lemma_filter_same(list, pred);
        }
        assert(c.with_forbidden(client, true).with_forbidden(client, false).forbidden_clients == list);
    }
    let clean = names_without(list, client);
    assert forall|i: int| 0 <= i < clean.len() implies pred(#[trigger] clean[i]) by {
        list.lemma_filter_pred(pred, i);
    }
    lemma_filter_same(clean, pred);
}

/// Denying a client touches nobody else.
pub proof fn denial_touches_nobody_else(
    c: ConfigModel,
    client: Seq<char>,
    denied: bool,
    jack: Seq<char>,
    other: Option<Seq<char>>,
)
    requires
        other != Some(client),
    ensures
        c.with_forbidden(client, denied).grants(jack, other) == c.grants(jack, other),
        c.with_forbidden(client, denied).seen_clients == c.seen_clients,
        c.with_forbidden(client, denied).client_overrides == c.client_overrides,
{
    let list = c.forbidden_clients;
    if other is Some {
        let o = other->0;
        lemma_filter_holds(list, other_than(client), o);
        if denied && !list.contains(client) {
            let t = list.push(client);
            if list.contains(o) {
                let k = choose|k: int| 0 <= k < list.len() && list[k] == o;
                assert(t[k] == o);
            }
            if t.contains(o) {
                let k = choose|k: int| 0 <= k < t.len() && t[k] == o;
                assert(list[k] == o);
            }
        }
    }
}

/// Putting a client's own list aside and taking it up again gives back the same
/// list.
pub proof fn custom_round_trip(c: ConfigModel, client: Seq<char>)
    requires
        c.customizes(client),
    ensures
        !c.without_custom(client).customizes(client),
        c.without_custom(client).with_custom(client) == c,
{
    assert(c.without_custom(client).with_custom(client).client_overrides =~= c.client_overrides);
}

/// After a reset a client follows the global list, and a list of its own starts
/// from the global one again.
pub proof fn reset_starts_over(c: ConfigModel, client: Seq<char>, jack: Seq<char>)
    ensures
        !c.without_override(client).customizes(client),
        !c.forbids(Some(client)) ==> c.without_override(client).grants(jack, Some(client)) == c.global_patched(
            jack,
        ),
        c.without_override(client).with_custom(client).client_overrides[client].jacks == global_list(c.jacks),
{
}

/// An own list that starts as the global one names exactly the jacks that exist,
/// and where their names differ it says of each what the global list says.
pub proof fn global_list_mirrors(jacks: Seq<JackModel>, jack: Seq<char>)
    ensures
        global_list(jacks).dom() =~= jack_names(jacks).to_set(),
        jack_names(jacks).no_duplicates() && has_jack(jacks, jack) ==> global_list(jacks)[jack]
            == jacks[first_named(jacks, jack)].patched,
    decreases jacks.len(),
{
    let names = jack_names(jacks);
    if jacks.len() > 0 {
        let front = jacks.drop_last();
        let last = jacks.last();
        global_list_mirrors(front, jack);
        assert(jack_names(front) =~= names.drop_last());
        assert(names.to_set() =~= jack_names(front).to_set().insert(last.name)) by {
            assert(names[names.len() - 1] == last.name);
            assert forall|x: Seq<char>| jack_names(front).to_set().contains(x) implies names.to_set().contains(x) by {
                let k = choose|k: int| 0 <= k < jack_names(front).len() && jack_names(front)[k] == x;
                assert(names[k] == x);
            }
            assert forall|x: Seq<char>| names.to_set().contains(x) implies jack_names(front).to_set().insert(
                last.name,
            ).contains(x) by {
                let k = choose|k: int| 0 <= k < names.len() && names[k] == x;
                if k < names.len() - 1 {
                    assert(jack_names(front)[k] == x);
                }
            }
        }
        if names.no_duplicates() && has_jack(jacks, jack) {
            lemma_first_named(jacks, jack);
            lemma_first_named(front, jack);
            let f = first_named(jacks, jack);
            assert(names[f] == jack);
            if f < front.len() {
                assert(front[f] == jacks[f]);
                assert forall|k: int| 0 <= k < f implies (#[trigger] front[k]).name != jack by {
                    assert(front[k] == jacks[k]);
                }
                lemma_is_first_named(front, jack, f);
                assert(names[names.len() - 1] == last.name);
                assert(last.name != jack);
                assert forall|i: int, j: int| 0 <= i < front.len() && 0 <= j < front.len() && i != j implies
                    jack_names(front)[i] != jack_names(front)[j] by {
                    assert(names[i] != names[j]);
                }
                assert(jack_names(front).no_duplicates());
            }
        }
    } else {
        assert(names.to_set() =~= Set::<Seq<char>>::empty());
    }
}

proof fn lemma_push_named(jacks: Seq<JackModel>, last: JackModel, name: Seq<char>)
    ensures
        has_jack(jacks.push(last), name) <==> has_jack(jacks, name) || last.name == name,
        has_jack(jacks, name) ==> first_named(jacks.push(last), name) == first_named(jacks, name),
        !has_jack(jacks, name) && last.name == name ==> first_named(jacks.push(last), name) == jacks.len(),
{
    let all = jacks.push(last);
    lemma_first_named(jacks, name);
    lemma_first_named(all, name);
    if has_jack(jacks, name) {
        let f = first_named(jacks, name);
        assert forall|k: int| 0 <= k < f implies (#[trigger] all[k]).name != name by {
            assert(all[k] == jacks[k]);
        }
        assert(all[f] == jacks[f]);
        lemma_is_first_named(all, name, f);
    } else if last.name == name {
        assert forall|k: int| 0 <= k < jacks.len() implies (#[trigger] all[k]).name != name by {
            assert(all[k] == jacks[k]);
        }
        lemma_is_first_named(all, name, jacks.len() as int);
    } else if has_jack(all, name) {
        let f = first_named(all, name);
        assert(f < jacks.len());
        assert(jacks[f].name == name);
        assert(jacks[f] == all[f]);
    }
}

proof fn lemma_drop_named(jacks: Seq<JackModel>, gone: Seq<char>, name: Seq<char>)
    ensures
        has_jack(jacks.filter(|j: JackModel| j.name != gone), name) <==> has_jack(jacks, name) && name != gone,
        has_jack(jacks, name) && name != gone ==> jacks.filter(|j: JackModel| j.name != gone)[first_named(
            jacks.filter(|j: JackModel| j.name != gone),
            name,
        )] == jacks[first_named(jacks, name)],
    decreases jacks.len(),
{
    reveal(Seq::filter);
    let pred = |j: JackModel| j.name != gone;
    if jacks.len() > 0 {
        let front = jacks.drop_last();
        lemma_drop_named(front, gone, name);
        assert(jacks =~= front.push(jacks.last()));
        lemma_push_named(front, jacks.last(), name);
        lemma_push_named(front.filter(pred), jacks.last(), name);
        lemma_first_named(front, name);
        lemma_first_named(front.filter(pred), name);
    }
}

proof fn lemma_names_set(jacks: Seq<JackModel>, name: Seq<char>)
    ensures
        jack_names(jacks).to_set().contains(name) <==> has_jack(jacks, name),
{
    lemma_first_named(jacks, name);
}

/// Adding, removing and switching jacks, and giving clients lists of their own,
/// all keep every own list named after exactly the jacks that exist.
pub proof fn changes_keep_mirror(c: ConfigModel, jack: JackModel, name: Seq<char>, client: Seq<char>, on: bool)
    requires
        c.overrides_mirror_jacks(),
    ensures
        c.with_jack(jack).overrides_mirror_jacks(),
        c.without_jack(name).overrides_mirror_jacks(),
        c.with_patched(name, on).overrides_mirror_jacks(),
        c.with_custom(client).overrides_mirror_jacks(),
        has_jack(c.jacks, name) ==> c.with_override(client, name, on).overrides_mirror_jacks(),
{
    let added = c.with_jack(jack);
    assert forall|o: Seq<char>| #[trigger] added.client_overrides.contains_key(o) implies added.client_overrides[o].jacks.dom()
        =~= jack_names(added.jacks).to_set() by {
        assert(c.client_overrides.contains_key(o));
        assert forall|x: Seq<char>| added.client_overrides[o].jacks.dom().contains(x) == jack_names(
            added.jacks,
        ).to_set().contains(x) by {
            lemma_names_set(c.jacks, x);
            lemma_names_set(added.jacks, x);
            lemma_push_named(c.jacks, jack, x);
            assert(c.client_overrides[o].jacks.dom().contains(x) == jack_names(c.jacks).to_set().contains(x));
        }
    }
    let removed = c.without_jack(name);
    assert forall|o: Seq<char>| #[trigger] removed.client_overrides.contains_key(o) implies
        removed.client_overrides[o].jacks.dom() =~= jack_names(removed.jacks).to_set() by {
        assert(c.client_overrides.contains_key(o));
        assert forall|x: Seq<char>| removed.client_overrides[o].jacks.dom().contains(x) == jack_names(
            removed.jacks,
        ).to_set().contains(x) by {
            lemma_names_set(c.jacks, x);
            lemma_names_set(removed.jacks, x);
            lemma_drop_named(c.jacks, name, x);
            assert(c.client_overrides[o].jacks.dom().contains(x) == jack_names(c.jacks).to_set().contains(x));
        }
    }
    let switched = c.with_patched(name, on);
    lemma_first_named(c.jacks, name);
    assert(jack_names(switched.jacks) =~= jack_names(c.jacks));
    assert forall|o: Seq<char>| #[trigger] switched.client_overrides.contains_key(o) implies
        switched.client_overrides[o].jacks.dom() =~= jack_names(switched.jacks).to_set() by {
        assert(c.client_overrides.contains_key(o));
    }
    let custom = c.with_custom(client);
    global_list_mirrors(c.jacks, name);
    assert forall|o: Seq<char>| #[trigger] custom.client_overrides.contains_key(o) implies
        custom.client_overrides[o].jacks.dom() =~= jack_names(custom.jacks).to_set() by {
        if o != client {
            assert(c.client_overrides.contains_key(o));
        }
    }
    if has_jack(c.jacks, name) {
        let over = c.with_override(client, name, on);
        assert forall|o: Seq<char>| #[trigger] over.client_overrides.contains_key(o) implies
            over.client_overrides[o].jacks.dom() =~= jack_names(over.jacks).to_set() by {
            assert(jack_names(c.jacks).to_set().contains(name));
            if o != client {
                assert(c.client_overrides.contains_key(o));
            }
        }
    }
}

/// Removing a jack undoes adding it.
pub proof fn removal_undoes_addition(c: ConfigModel, jack: JackModel)
    requires
        c.overrides_mirror_jacks(),
        !has_jack(c.jacks, jack.name),
    ensures
        c.with_jack(jack).without_jack(jack.name) == c,
{
    let name = jack.name;
    let back = c.with_jack(jack).without_jack(name);
    let pred = |j: JackModel| j.name != name;
    assert(c.jacks.push(jack).filter(pred) =~= c.jacks) by {
        reveal(Seq::filter);
        assert(c.jacks.push(jack).drop_last() =~= c.jacks);
        lemma_first_named(c.jacks, name);
        lemma_filter_same(c.jacks, pred);
    }
    assert(back.jacks =~= c.jacks);
    assert forall|o: Seq<char>| c.client_overrides.contains_key(o) implies back.client_overrides[o]
        == c.client_overrides[o] by {
        lemma_names_set(c.jacks, name);
        assert(!c.client_overrides[o].jacks.dom().contains(name));
        assert(back.client_overrides[o].jacks =~= c.client_overrides[o].jacks);
    }
    assert(back.client_overrides =~= c.client_overrides);
}

/// A jack that was just added is needed exactly where it was added switched on.
pub proof fn added_jack_runs_as_switched(c: ConfigModel, jack: JackModel)
    requires
        c.overrides_mirror_jacks(),
        !has_jack(c.jacks, jack.name),
    ensures
        c.with_jack(jack).should_run(jack.name) == jack.patched,
        c.with_jack(jack).global_patched(jack.name) == jack.patched,
{
    let after = c.with_jack(jack);
    lemma_push_named(c.jacks, jack, jack.name);
    if !jack.patched && after.should_run(jack.name) {
        let o = choose|o: Seq<char>| after.keeps_running(jack.name, o);
        assert(after.client_overrides[o].jacks[jack.name] == false);
    }
}

/// Switching a jack off makes nothing reachable: whatever a client may reach
/// afterwards it could reach before, and whatever has to run afterwards had to
/// run before.
pub proof fn switching_off_grants_nothing(c: ConfigModel, name: Seq<char>, jack: Seq<char>, client: Option<Seq<char>>)
    ensures
        c.with_patched(name, false).grants(jack, client) ==> c.grants(jack, client),
        c.with_patched(name, false).should_run(jack) ==> c.should_run(jack),
{
    let off = c.with_patched(name, false);
    lemma_switched(c, name, false, jack);
    if off.should_run(jack) && !off.global_patched(jack) {
        let o = choose|o: Seq<char>| off.keeps_running(jack, o);
        assert(c.keeps_running(jack, o));
    }
}

/// Removing a jack makes nothing reachable.
pub proof fn removal_grants_nothing(c: ConfigModel, name: Seq<char>, jack: Seq<char>, client: Option<Seq<char>>)
    ensures
        c.without_jack(name).grants(jack, client) ==> c.grants(jack, client),
        c.without_jack(name).should_run(jack) ==> c.should_run(jack),
{
    let less = c.without_jack(name);
    lemma_drop_named(c.jacks, name, jack);
    assert(less.global_patched(jack) ==> c.global_patched(jack));
    if less.should_run(jack) && !less.global_patched(jack) {
        let o = choose|o: Seq<char>| less.keeps_running(jack, o);
        assert(c.client_overrides.contains_key(o));
        assert(c.keeps_running(jack, o));
    }
}

/// Adding a jack that is switched off makes nothing reachable.
pub proof fn adding_off_grants_nothing(c: ConfigModel, added: JackModel, jack: Seq<char>, client: Option<Seq<char>>)
    requires
        !has_jack(c.jacks, added.name),
        !added.patched,
    ensures
        c.with_jack(added).grants(jack, client) ==> c.grants(jack, client),
        c.with_jack(added).should_run(jack) ==> c.should_run(jack),
{
    let more = c.with_jack(added);
    lemma_push_named(c.jacks, added, jack);
    lemma_first_named(c.jacks, jack);
    assert(more.global_patched(jack) ==> c.global_patched(jack));
    if more.should_run(jack) && !more.global_patched(jack) {
        let o = choose|o: Seq<char>| more.keeps_running(jack, o);
        assert(c.client_overrides.contains_key(o));
        assert(c.keeps_running(jack, o));
    }
}

proof fn lemma_switched(c: ConfigModel, name: Seq<char>, on: bool, jack: Seq<char>)
    ensures
        c.with_patched(name, on).global_patched(jack) == (if jack == name && has_jack(c.jacks, name) {
            on
        } else {
            c.global_patched(jack)
        }),
{
    let after = c.with_patched(name, on);
    lemma_first_named(c.jacks, name);
    lemma_first_named(c.jacks, jack);
    if has_jack(c.jacks, name) {
        let i = first_named(c.jacks, name);
        let f = first_named(c.jacks, jack);
        assert forall|k: int| 0 <= k < f implies (#[trigger] after.jacks[k]).name != jack by {
            assert(after.jacks[k].name == c.jacks[k].name);
        }
        if f < c.jacks.len() {
            assert(after.jacks[f].name == jack);
        }
        lemma_is_first_named(after.jacks, jack, f);
    }
}

/// A global switch sets what the clients without a list of their own may reach
/// of that jack. It touches no other jack, and no client with its own list.
pub proof fn global_switch_reaches_followers(
    c: ConfigModel,
    name: Seq<char>,
    on: bool,
    jack: Seq<char>,
    client: Option<Seq<char>>,
)
    requires
        has_jack(c.jacks, name),
    ensures
        c.with_patched(name, on).grants(jack, client) == (if !c.forbids(client) && !(client is Some
            && c.customizes(client->0)) && jack == name {
            on
        } else {
            c.grants(jack, client)
        }),
{
    lemma_switched(c, name, on, jack);
}

/// Switching a jack for one client sets what that client may reach of it, unless
/// it is denied. No other client is touched; and where jack names differ, no
/// other jack is touched for this one either.
pub proof fn own_switch_reaches_one_client(
    c: ConfigModel,
    client: Seq<char>,
    name: Seq<char>,
    on: bool,
    jack: Seq<char>,
    other: Option<Seq<char>>,
)
    requires
        has_jack(c.jacks, name),
        other != Some(client),
    ensures
        c.with_override(client, name, on).grants(name, Some(client)) == (on && !c.forbids(Some(client))),
        c.with_override(client, name, on).grants(jack, other) == c.grants(jack, other),
        jack != name && c.customizes(client) ==> c.with_override(client, name, on).grants(jack, Some(client))
            == c.grants(jack, Some(client)),
        jack != name && !c.client_overrides.contains_key(client) && jack_names(c.jacks).no_duplicates()
            ==> c.with_override(client, name, on).grants(jack, Some(client)) == c.grants(jack, Some(client)),
{
    global_list_mirrors(c.jacks, jack);
    lemma_names_set(c.jacks, jack);
}

/// Switching a jack and then back leaves everything as it was.
pub proof fn switching_back_restores(c: ConfigModel, name: Seq<char>, on: bool)
    ensures
        c.with_patched(name, on).with_patched(name, c.global_patched(name)) == c,
{
    let once = c.with_patched(name, on);
    lemma_first_named(c.jacks, name);
    if has_jack(c.jacks, name) {
        let i = first_named(c.jacks, name);
        assert forall|k: int| 0 <= k < i implies (#[trigger] once.jacks[k]).name != name by {
            assert(once.jacks[k] == c.jacks[k]);
        }
        lemma_is_first_named(once.jacks, name, i);
        assert(once.with_patched(name, c.global_patched(name)).jacks =~= c.jacks);
    }
}

/// Whether the first jack of a name is on.
pub open spec fn switched_on(c: ConfigModel, jack: Seq<char>) -> bool {
    exists|i: int|
        {
            &&& 0 <= i < c.jacks.len()
            &&& (#[trigger] c.jacks[i]).name == jack
            &&& c.jacks[i].patched
            &&& forall|k: int| 0 <= k < i ==> (#[trigger] c.jacks[k]).name != jack
        }
}

/// Whether a client that nobody denied uses an own list that has the jack on.
pub open spec fn wanted_by(c: ConfigModel, jack: Seq<char>, client: Seq<char>) -> bool {
    &&& c.client_overrides.contains_key(client)
    &&& c.client_overrides[client].enabled
    &&& c.client_overrides[client].jacks.contains_key(jack)
    &&& c.client_overrides[client].jacks[jack]
    &&& !c.forbidden_clients.contains(client)
}

/// The global switch of a jack is that of the first jack of its name.
pub proof fn global_switch_is_the_first(c: ConfigModel, jack: Seq<char>)
    ensures
        c.global_patched(jack) <==> switched_on(c, jack),
{
    lemma_first_named(c.jacks, jack);
    let f = first_named(c.jacks, jack);
    if c.global_patched(jack) {
        assert(c.jacks[f].name == jack && c.jacks[f].patched);
    }
    if switched_on(c, jack) {
        let i = choose|i: int|
            {
                &&& 0 <= i < c.jacks.len()
                &&& (#[trigger] c.jacks[i]).name == jack
                &&& c.jacks[i].patched
                &&& forall|k: int| 0 <= k < i ==> (#[trigger] c.jacks[k]).name != jack
            };
        lemma_is_first_named(c.jacks, jack, i);
    }
}

/// A jack runs for somebody: the first jack of its name is on, or some client that
/// nobody denied uses an own list that has it on. It runs for nobody else.
pub proof fn jacks_run_for_somebody(c: ConfigModel, jack: Seq<char>)
    ensures
        c.should_run(jack) <==> switched_on(c, jack) || exists|client: Seq<char>| wanted_by(c, jack, client),
{
    global_switch_is_the_first(c, jack);
    assert forall|client: Seq<char>| #[trigger] wanted_by(c, jack, client) == c.keeps_running(jack, client) by {}
    if exists|client: Seq<char>| c.keeps_running(jack, client) {
        let client = choose|client: Seq<char>| c.keeps_running(jack, client);
        assert(wanted_by(c, jack, client));
    }
    if exists|client: Seq<char>| wanted_by(c, jack, client) {
        let client = choose|client: Seq<char>| wanted_by(c, jack, client);
        assert(c.keeps_running(jack, client));
    }
}

/// Switching a jack changes its switch and nothing else.
pub proof fn switching_changes_one_switch(c: ConfigModel, jack: Seq<char>, on: bool, i: int)
    requires
        0 <= i < c.jacks.len(),
    ensures
        ({
            let after = c.with_patched(jack, on);
            let first = c.jacks[i].name == jack && forall|k: int| 0 <= k < i ==> (#[trigger] c.jacks[k]).name != jack;
            &&& after == (ConfigModel { jacks: after.jacks, ..c })
            &&& after.jacks.len() == c.jacks.len()
            &&& first ==> after.jacks[i] == (JackModel { patched: on, ..c.jacks[i] })
            &&& !first ==> after.jacks[i] == c.jacks[i]
        }),
{
    lemma_first_named(c.jacks, jack);
    let first = c.jacks[i].name == jack && forall|k: int| 0 <= k < i ==> (#[trigger] c.jacks[k]).name != jack;
    if first {
        lemma_is_first_named(c.jacks, jack, i);
    } else if has_jack(c.jacks, jack) && first_named(c.jacks, jack) == i {
        assert(first);
    }
}

/// A jack that is added comes last and as it was described. Every own list takes it
/// up with its global switch, and nothing else changes.
pub proof fn adding_adds_one_jack(c: ConfigModel, jack: JackModel, client: Seq<char>, other: Seq<char>)
    ensures
        ({
            let after = c.with_jack(jack);
            &&& after == (ConfigModel { jacks: after.jacks, client_overrides: after.client_overrides, ..c })
            &&& after.jacks.len() == c.jacks.len() + 1
            &&& after.jacks.last() == jack
            &&& after.jacks.drop_last() == c.jacks
            &&& after.client_overrides.contains_key(client) == c.client_overrides.contains_key(client)
            &&& c.client_overrides.contains_key(client) ==> {
                let own = after.client_overrides[client];
                &&& own.enabled == c.client_overrides[client].enabled
                &&& own.jacks.contains_key(jack.name)
                &&& own.jacks[jack.name] == jack.patched
                &&& other != jack.name ==> own.jacks.get(other) == c.client_overrides[client].jacks.get(other)
            }
        }),
{
    assert(c.with_jack(jack).jacks.drop_last() =~= c.jacks);
}

/// A jack that is removed is gone, from the jacks and from every own list; all other
/// jacks stay, each as it was.
pub proof fn removing_removes_one_jack(c: ConfigModel, name: Seq<char>, jack: JackModel, client: Seq<char>, other: Seq<char>)
    ensures
        ({
            let after = c.without_jack(name);
            &&& after == (ConfigModel { jacks: after.jacks, client_overrides: after.client_overrides, ..c })
            &&& forall|i: int| 0 <= i < after.jacks.len() ==> (#[trigger] after.jacks[i]).name != name
            &&& after.jacks.contains(jack) <==> c.jacks.contains(jack) && jack.name != name
            &&& after.jacks.len() <= c.jacks.len()
            &&& after.client_overrides.contains_key(client) == c.client_overrides.contains_key(client)
            &&& c.client_overrides.contains_key(client) ==> {
                let own = after.client_overrides[client];
                &&& own.enabled == c.client_overrides[client].enabled
                &&& !own.jacks.contains_key(name)
                &&& other != name ==> own.jacks.get(other) == c.client_overrides[client].jacks.get(other)
            }
        }),
{
    let pred = |j: JackModel| j.name != name;
    lemma_filter_holds(c.jacks, pred, jack);
    lemma_filter_same(c.jacks, pred);
    let after = c.without_jack(name);
    assert forall|i: int| 0 <= i < after.jacks.len() implies (#[trigger] after.jacks[i]).name != name by {
        assert(after.jacks.contains(after.jacks[i]));
        lemma_filter_holds(c.jacks, pred, after.jacks[i]);
    }
}

/// Switching a jack for one client puts the client's own list in use with that entry.
/// The rest of the list is the list that the client had or, where it had none, the
/// switches of the jacks themselves; everybody else keeps what they had.
pub proof fn own_switch_changes_one_entry(
    c: ConfigModel,
    client: Seq<char>,
    jack: Seq<char>,
    on: bool,
    other: Seq<char>,
    someone: Seq<char>,
    i: int,
)
    ensures
        ({
            let after = c.with_override(client, jack, on);
            let own = after.client_overrides[client];
            &&& after == (ConfigModel { client_overrides: after.client_overrides, ..c })
            &&& after.client_overrides.contains_key(client)
            &&& own.enabled
            &&& own.jacks.contains_key(jack)
            &&& own.jacks[jack] == on
            &&& c.client_overrides.contains_key(client) && other != jack ==> own.jacks.get(other)
                == c.client_overrides[client].jacks.get(other)
            &&& !c.client_overrides.contains_key(client) && 0 <= i < c.jacks.len() && c.jacks[i].name != jack
                && jack_names(c.jacks).no_duplicates() ==> own.jacks.get(c.jacks[i].name) == Some(c.jacks[i].patched)
            &&& someone != client ==> after.client_overrides.contains_key(someone)
                == c.client_overrides.contains_key(someone)
            &&& someone != client && c.client_overrides.contains_key(someone) ==> after.client_overrides[someone]
                == c.client_overrides[someone]
        }),
{
    if 0 <= i < c.jacks.len() && jack_names(c.jacks).no_duplicates() {
        lemma_global_entry(c.jacks, i);
    }
}

proof fn lemma_global_entry(jacks: Seq<JackModel>, i: int)
    requires
        0 <= i < jacks.len(),
        jack_names(jacks).no_duplicates(),
    ensures
        global_list(jacks).contains_key(jacks[i].name),
        global_list(jacks)[jacks[i].name] == jacks[i].patched,
{
    let name = jacks[i].name;
    assert forall|k: int| 0 <= k < i implies (#[trigger] jacks[k]).name != name by {
        assert(jack_names(jacks)[k] == jacks[k].name && jack_names(jacks)[i] == name);
    }
    lemma_is_first_named(jacks, name, i);
    global_list_mirrors(jacks, name);
    lemma_first_named(jacks, name);
}

/// Switching own lists on and off for a client. On brings back the list that it had
/// or, where it had none, a copy of the switches of the jacks; off keeps the list and
/// puts it out of use. Nobody else is touched.
pub proof fn own_lists_come_and_go(c: ConfigModel, client: Seq<char>, someone: Seq<char>, i: int)
    ensures
        ({
            let on = c.with_custom(client);
            let off = c.without_custom(client);
            let reset = c.without_override(client);
            &&& on == (ConfigModel { client_overrides: on.client_overrides, ..c })
            &&& on.client_overrides.contains_key(client)
            &&& on.client_overrides[client].enabled
            &&& c.client_overrides.contains_key(client) ==> on.client_overrides[client].jacks
                == c.client_overrides[client].jacks
            &&& !c.client_overrides.contains_key(client) && 0 <= i < c.jacks.len() && jack_names(
                c.jacks,
            ).no_duplicates() ==> on.client_overrides[client].jacks.get(c.jacks[i].name) == Some(c.jacks[i].patched)
            &&& off == (ConfigModel { client_overrides: off.client_overrides, ..c })
            &&& off.client_overrides.contains_key(client) == c.client_overrides.contains_key(client)
            &&& c.client_overrides.contains_key(client) ==> !off.client_overrides[client].enabled
                && off.client_overrides[client].jacks == c.client_overrides[client].jacks
            &&& reset == (ConfigModel { client_overrides: reset.client_overrides, ..c })
            &&& !reset.client_overrides.contains_key(client)
            &&& someone != client ==> {
                &&& on.client_overrides.contains_key(someone) == c.client_overrides.contains_key(someone)
                &&& off.client_overrides.contains_key(someone) == c.client_overrides.contains_key(someone)
                &&& reset.client_overrides.contains_key(someone) == c.client_overrides.contains_key(someone)
                &&& c.client_overrides.contains_key(someone) ==> on.client_overrides[someone]
                    == c.client_overrides[someone] && off.client_overrides[someone] == c.client_overrides[someone]
                    && reset.client_overrides[someone] == c.client_overrides[someone]
            }
        }),
{
    if 0 <= i < c.jacks.len() && jack_names(c.jacks).no_duplicates() {
        lemma_global_entry(c.jacks, i);
    }
}

/// Denying several clients at once denies each of them and keeps every denial there
/// was; allowing several lifts exactly theirs. Nothing else of the configuration
/// changes.
pub proof fn denying_many_denies_each(c: ConfigModel, clients: Seq<Seq<char>>, client: Seq<char>, denied: bool)
    ensures
        c.with_forbidden_all(clients, true).forbidden_clients.contains(client) <==> c.forbidden_clients.contains(client)
            || clients.contains(client),
        c.with_forbidden_all(clients, false).forbidden_clients.contains(client) <==> c.forbidden_clients.contains(
            client,
        ) && !clients.contains(client),
        c.with_forbidden_all(clients, denied) == (ConfigModel {
            forbidden_clients: c.with_forbidden_all(clients, denied).forbidden_clients,
            ..c
        }),
        c.with_forbidden(client, denied) == (ConfigModel {
            forbidden_clients: c.with_forbidden(client, denied).forbidden_clients,
            ..c
        }),
        c.with_forbidden(client, denied).forbidden_clients.contains(client) == denied,
{
    lemma_names_with_all(c.forbidden_clients, clients, client);
    lemma_filter_holds(c.forbidden_clients, |f: Seq<char>| !clients.contains(f), client);
    denial_round_trip(c, client);
}

proof fn lemma_names_with_all(list: Seq<Seq<char>>, names: Seq<Seq<char>>, name: Seq<char>)
    ensures
        names_with_all(list, names).contains(name) <==> list.contains(name) || names.contains(name),
    decreases names.len(),
{
    if names.len() > 0 {
        let front = names.drop_last();
        lemma_names_with_all(list, front, name);
        let before = names_with_all(list, front);
        let last = names.last();
        assert(names =~= front.push(last));
        assert(names.contains(name) <==> front.contains(name) || last == name) by {
            if front.contains(name) {
                let i = choose|i: int| 0 <= i < front.len() && front[i] == name;
                assert(names[i] == name);
            }
            if last == name {
                assert(names[names.len() - 1] == name);
            }
        }
        if !before.contains(last) {
            let after = before.push(last);
            if before.contains(name) {
                let i = choose|i: int| 0 <= i < before.len() && before[i] == name;
                assert(after[i] == name);
            }
            if last == name {
                assert(after[after.len() - 1] == name);
            }
        }
    }
}

/// Deleting a client leaves no trace of it, and everybody else as they were.
pub proof fn deleting_forgets_one_client(c: ConfigModel, client: Seq<char>, seen: SeenModel, other: Seq<char>)
    ensures
        ({
            let after = c.without_client(client);
            &&& after == (ConfigModel {
                seen_clients: after.seen_clients,
                client_overrides: after.client_overrides,
                forbidden_clients: after.forbidden_clients,
                ..c
            })
            &&& forall|i: int| 0 <= i < after.seen_clients.len() ==> (#[trigger] after.seen_clients[i]).name != client
            &&& !after.client_overrides.contains_key(client)
            &&& !after.forbidden_clients.contains(client)
            &&& seen.name != client ==> after.seen_clients.contains(seen) == c.seen_clients.contains(seen)
            &&& other != client ==> after.forbidden_clients.contains(other) == c.forbidden_clients.contains(other)
            &&& other != client ==> after.client_overrides.contains_key(other) == c.client_overrides.contains_key(other)
            &&& other != client && c.client_overrides.contains_key(other) ==> after.client_overrides[other]
                == c.client_overrides[other]
        }),
{
    let pred = |s: SeenModel| s.name != client;
    let after = c.without_client(client);
    assert forall|i: int| 0 <= i < after.seen_clients.len() implies (#[trigger] after.seen_clients[i]).name != client by {
        assert(after.seen_clients.contains(after.seen_clients[i]));
        lemma_filter_holds(c.seen_clients, pred, after.seen_clients[i]);
    }
    lemma_filter_holds(c.seen_clients, pred, seen);
    lemma_filter_holds(c.forbidden_clients, other_than(client), client);
    lemma_filter_holds(c.forbidden_clients, other_than(client), other);
}

/// A client that is seen for the first time is noted once, with that moment as its
/// first and its last; one that is known stays as it is noted. Seeing it again moves
/// its last moment alone. Neither touches anything else.
pub proof fn sightings_are_noted(
    c: ConfigModel,
    client: Seq<char>,
    version: Option<Seq<char>>,
    now: Seq<char>,
    i: int,
)
    ensures
        ({
            let known = exists|k: int| 0 <= k < c.seen_clients.len() && (#[trigger] c.seen_clients[k]).name == client;
            let noted = c.with_seen(client, version, now);
            let again = c.with_last_seen(client, now);
            &&& known ==> noted == c
            &&& !known ==> {
                &&& noted == (ConfigModel { seen_clients: noted.seen_clients, ..c })
                &&& noted.seen_clients.len() == c.seen_clients.len() + 1
                &&& noted.seen_clients.drop_last() == c.seen_clients
                &&& noted.seen_clients.last() == (SeenModel {
                    name: client,
                    first_seen_version: version,
                    first_seen: now,
                    last_seen: Some(now),
                })
                &&& again == c
            }
            &&& again == (ConfigModel { seen_clients: again.seen_clients, ..c })
            &&& again.seen_clients.len() == c.seen_clients.len()
            &&& 0 <= i < c.seen_clients.len() ==> {
                let first = c.seen_clients[i].name == client && forall|k: int|
                    0 <= k < i ==> (#[trigger] c.seen_clients[k]).name != client;
                &&& first ==> again.seen_clients[i] == (SeenModel { last_seen: Some(now), ..c.seen_clients[i] })
                &&& !first ==> again.seen_clients[i] == c.seen_clients[i]
            }
        }),
{
    lemma_first_seen(c.seen_clients, client);
    let f = first_seen(c.seen_clients, client);
    assert(c.with_seen(client, version, now).seen_clients.drop_last() =~= c.seen_clients || c.knows(client));
    if 0 <= i < c.seen_clients.len() {
        let first = c.seen_clients[i].name == client && forall|k: int|
            0 <= k < i ==> (#[trigger] c.seen_clients[k]).name != client;
        if first {
            lemma_is_first_seen(c.seen_clients, client, i);
        } else if f == i {
            assert(first);
        }
    }
}

/// What the user decides about a new client holds: one that is allowed is known and
/// not denied, and one that is not is denied and is not noted as seen. Either way
/// nobody else is touched, and no switch moves.
pub proof fn decisions_hold(
    c: ConfigModel,
    client: Seq<char>,
    version: Option<Seq<char>>,
    now: Seq<char>,
    allowed: bool,
    other: Seq<char>,
)
    ensures
        ({
            let after = c.with_decision(client, version, now, allowed);
            &&& after.forbidden_clients.contains(client) == !allowed
            &&& allowed ==> exists|k: int|
                0 <= k < after.seen_clients.len() && (#[trigger] after.seen_clients[k]).name == client
            &&& !allowed ==> after.seen_clients == c.seen_clients
            &&& other != client ==> after.forbidden_clients.contains(other) == c.forbidden_clients.contains(other)
            &&& after.jacks == c.jacks
            &&& after.client_overrides == c.client_overrides
            &&& after.port == c.port
            &&& after.require_approval_for_new_clients == c.require_approval_for_new_clients
        }),
{
    let noted = c.with_seen(client, version, now);
    sightings_are_noted(c, client, version, now, 0);
    lemma_filter_holds(noted.forbidden_clients, other_than(client), client);
    lemma_filter_holds(noted.forbidden_clients, other_than(client), other);
    let after = c.with_decision(client, version, now, allowed);
    if allowed {
        if c.knows(client) {
            lemma_first_seen(c.seen_clients, client);
            assert(after.seen_clients[first_seen(c.seen_clients, client)].name == client);
        } else {
            lemma_first_seen(c.seen_clients, client);
            assert(after.seen_clients[c.seen_clients.len() as int].name == client);
        }
    } else {
        lemma_names_with_all(c.forbidden_clients, seq![client], client);
        denial_round_trip(c, client);
        if !c.forbidden_clients.contains(client) {
            let list = c.forbidden_clients.push(client);
            if c.forbidden_clients.contains(other) {
                let i = choose|i: int| 0 <= i < c.forbidden_clients.len() && c.forbidden_clients[i] == other;
                assert(list[i] == other);
            }
        }
    }
}

/// Repair keeps every entry of an own list whose jack exists, drops those whose jack
/// is gone, and adds what is missing switched off; lists stay in use or out of it as
/// they were, and nothing else changes.
pub proof fn repair_rekeys_lists(c: ConfigModel, client: Seq<char>, jack: Seq<char>)
    ensures
        ({
            let after = c.synced();
            let exists_jack = exists|i: int| 0 <= i < c.jacks.len() && (#[trigger] c.jacks[i]).name == jack;
            &&& after == (ConfigModel { client_overrides: after.client_overrides, ..c })
            &&& after.client_overrides.contains_key(client) == c.client_overrides.contains_key(client)
            &&& c.client_overrides.contains_key(client) ==> {
                let own = c.client_overrides[client].jacks;
                let new = after.client_overrides[client].jacks;
                &&& after.client_overrides[client].enabled == c.client_overrides[client].enabled
                &&& new.contains_key(jack) <==> exists_jack
                &&& exists_jack && own.contains_key(jack) ==> new[jack] == own[jack]
                &&& exists_jack && !own.contains_key(jack) ==> !new[jack]
            }
        }),
{
    lemma_first_named(c.jacks, jack);
    let names = jack_names(c.jacks);
    if exists|i: int| 0 <= i < c.jacks.len() && (#[trigger] c.jacks[i]).name == jack {
        let i = choose|i: int| 0 <= i < c.jacks.len() && (#[trigger] c.jacks[i]).name == jack;
        assert(names[i] == jack);
        assert(names.contains(jack));
    }
    if names.to_set().contains(jack) {
        let i = choose|i: int| 0 <= i < names.len() && names[i] == jack;
        assert(c.jacks[i].name == jack);
    }
}

/// The clients that are counted as having a list of their own in use are those whose
/// list is in use and that nobody denied.
pub proof fn custom_clients_use_their_list(c: ConfigModel, client: Seq<char>)
    ensures
        c.custom_clients().contains(client) <==> {
            &&& c.client_overrides.contains_key(client)
            &&& c.client_overrides[client].enabled
            &&& !c.forbidden_clients.contains(client)
        },
{
}

/// The switch of a jack is what it was switched to.
pub proof fn a_switch_is_what_it_was_switched_to(c: ConfigModel, jack: Seq<char>, on: bool)
    ensures
        has_jack(c.jacks, jack) ==> switched_on(c.with_patched(jack, on), jack) == on,
        c.with_patched(jack, on).jacks.len() == c.jacks.len(),
        c.with_patched(jack, on).client_overrides == c.client_overrides,
        c.with_patched(jack, on).forbidden_clients == c.forbidden_clients,
{
    lemma_first_named(c.jacks, jack);
    if has_jack(c.jacks, jack) {
        global_switch_reaches_followers(c, jack, on, jack, None);
        global_switch_is_the_first(c.with_patched(jack, on), jack);
    }
}

} // verus!
