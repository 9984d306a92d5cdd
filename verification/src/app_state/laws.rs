//! What is owed to the user whenever the state changes.

use vstd::prelude::*;
#[allow(unused_imports)]
use vstd::string::*;

use super::approvals::ApprovalStep;
use super::clients::{batch_changes, batch_effects, forbidden_effects};
use super::jacks::{
    add_error, report_effects, toggle_refused, AddErrorModel, LifecycleMove,
};
use super::reload::{is_due, moves, reloaded, stops, takeover_effects};
use super::settings::rebind_effects;
use super::state::{AppModel, EffectModel, WriteModel};
use crate::config::grants::{has_jack, jack_names, lemma_first_named};
use crate::config::laws::{decisions_hold, jacks_run_for_somebody, switched_on, wanted_by};
use crate::config::load::LoadErrorModel;
use crate::config::schema::{ConfigModel, JackModel, TransportModel};
use crate::config::validate::valid_jack_name;
use crate::name_map::lemma_filter_holds;
use crate::text::{holds, occurs_at};

verus! {

proof fn lemma_within(a: Seq<char>, b: Seq<char>, c: Seq<char>)
    ensures
        holds(a + b + c, b),
        holds(a + b, b),
{
    let i = a.len() as int;
    assert((a + b + c).subrange(i, i + b.len()) =~= b);
    assert(occurs_at(a + b + c, b, i));
    assert((a + b).subrange(i, i + b.len()) =~= b);
    assert(occurs_at(a + b, b, i));
}

// ---- saving --------------------------------------------------------------

/// A change that was saved takes hold, and exactly as it was saved; one that could not
/// be saved fails with that reason and leaves everything as it was. Where nothing
/// changes nothing is written, and that is no failure. A configuration on disk that
/// could not be used stays as it is, and whoever wants a change is told why.
pub proof fn saved_changes_take_hold(
    m: AppModel,
    changed: bool,
    candidate: ConfigModel,
    why: Seq<char>,
    unchanged: Seq<EffectModel>,
    done: Seq<EffectModel>,
)
    ensures
        m.config_error is None && changed ==> {
            &&& m.plan(changed, candidate) == WriteModel::Config(candidate)
            &&& m.committed(changed, candidate, Ok(())) == (AppModel { config: candidate, ..m })
            &&& m.verdict(changed, Ok(())) is Ok
            &&& m.effects(changed, Ok(()), unchanged, done) == done
            &&& m.committed(changed, candidate, Err(why)) == m
            &&& m.verdict(changed, Err(why)) == Err::<(), Seq<char>>(why)
            &&& m.effects(changed, Err(why), unchanged, done).len() == 0
        },
        !changed ==> {
            &&& m.plan(changed, candidate) is Nothing
            &&& m.committed(changed, candidate, Ok(())) == m
            &&& m.committed(changed, candidate, Err(why)) == m
            &&& m.verdict(changed, Err(why)) is Ok
            &&& m.effects(changed, Ok(()), unchanged, done) == unchanged
        },
        m.config_error is Some && changed ==> {
            &&& m.plan(changed, candidate) matches WriteModel::Refused(words) && holds(words, m.config_error->0)
            &&& m.committed(changed, candidate, Ok(())) == m
            &&& m.verdict(changed, Ok(())) matches Err(words) && holds(words, m.config_error->0)
            &&& m.effects(changed, Ok(()), unchanged, done).len() == 0
        },
        m.config_error is None ==> m.state_write(candidate) == WriteModel::State(candidate) && m.state_written(Ok(())) is Ok
            && m.state_written(Err(why)) == Err::<(), Seq<char>>(why),
        m.config_error is Some ==> m.state_written(Ok(())) is Err,
{
    if m.config_error is Some {
        let reason = m.config_error->0;
        lemma_within(
            "refusing to save: the config on disk did not parse ("@,
            reason,
            "), so memory holds an empty default. Fix the file and use Reload config."@,
        );
    }
}

// ---- starting and stopping -----------------------------------------------

/// A jack is started where somebody wants it and it does not run, and stopped where
/// nobody wants it and it runs; otherwise it is left alone.
pub proof fn jacks_run_where_they_are_wanted(m: AppModel, jack: Seq<char>)
    ensures
        ({
            let wanted = switched_on(m.config, jack) || exists|client: Seq<char>| wanted_by(m.config, jack, client);
            let runs = m.upstream.contains_key(jack) && m.upstream[jack].status is Running;
            &&& m.lifecycle(jack) == LifecycleMove::Start <==> wanted && !runs
            &&& m.lifecycle(jack) == LifecycleMove::Stop <==> !wanted && runs
        }),
{
    jacks_run_for_somebody(m.config, jack);
}

/// Every change to a jack is announced, once: after it was started, so that its tools
/// are there to be seen, and before it is stopped, so that nobody calls them any more.
pub proof fn changes_to_a_jack_are_announced(m: AppModel, jack: Seq<char>)
    ensures
        ({
            let e = m.lifecycle_effects(jack);
            &&& m.lifecycle(jack) == LifecycleMove::Start ==> e.len() == 2 && e[0] == EffectModel::StartJack(jack) && e[1]
                == EffectModel::Broadcast
            &&& m.lifecycle(jack) == LifecycleMove::Stop ==> e.len() == 2 && e[0] == EffectModel::Broadcast && e[1]
                == EffectModel::StopJack(jack)
            &&& m.lifecycle(jack) == LifecycleMove::Keep ==> e.len() == 1 && e[0] == EffectModel::Broadcast
        }),
{
}

/// Bringing all jacks in line starts every jack that has to start and stops every one
/// that has to stop, and no other, and announces it once: after the starts and before
/// the stops.
pub proof fn all_jacks_are_brought_in_line(m: AppModel, jack: Seq<char>)
    ensures
        ({
            let e = m.reconcile_effects();
            let configured = exists|i: int| 0 <= i < m.config.jacks.len() && (#[trigger] m.config.jacks[i]).name == jack;
            &&& e.contains(EffectModel::StartJack(jack)) <==> configured && m.lifecycle(jack) == LifecycleMove::Start
            &&& e.contains(EffectModel::StopJack(jack)) <==> configured && m.lifecycle(jack) == LifecycleMove::Stop
            &&& exists|b: int|
                {
                    &&& 0 <= b < e.len()
                    &&& #[trigger] e[b] == EffectModel::Broadcast
                    &&& forall|k: int| 0 <= k < b ==> #[trigger] e[k] is StartJack
                    &&& forall|k: int| b < k < e.len() ==> #[trigger] e[k] is StopJack
                }
        }),
{
    let names = jack_names(m.config.jacks);
    let up = |n: Seq<char>| m.lifecycle(n) == LifecycleMove::Start;
    let down = |n: Seq<char>| m.lifecycle(n) == LifecycleMove::Stop;
    let starts = names.filter(up);
    let ends = names.filter(down);
    let f = |n: Seq<char>| EffectModel::StartJack(n);
    let g = |n: Seq<char>| EffectModel::StopJack(n);
    let head = starts.map_values(f);
    let tail = ends.map_values(g);
    let e = m.reconcile_effects();
    assert(e == head + seq![EffectModel::Broadcast] + tail);
    lemma_filter_holds(names, up, jack);
    lemma_filter_holds(names, down, jack);
    lemma_configured(m.config, jack);
    if starts.contains(jack) {
        let i = choose|i: int| 0 <= i < starts.len() && starts[i] == jack;
        assert(e[i] == EffectModel::StartJack(jack));
    }
    if ends.contains(jack) {
        let i = choose|i: int| 0 <= i < ends.len() && ends[i] == jack;
        assert(e[head.len() + 1 + i] == EffectModel::StopJack(jack));
    }
    if e.contains(EffectModel::StartJack(jack)) {
        let i = choose|i: int| 0 <= i < e.len() && e[i] == EffectModel::StartJack(jack);
        if i < head.len() {
            assert(starts[i] == jack);
        } else if i > head.len() {
            assert(tail[i - head.len() - 1] is StopJack);
        }
    }
    if e.contains(EffectModel::StopJack(jack)) {
        let i = choose|i: int| 0 <= i < e.len() && e[i] == EffectModel::StopJack(jack);
        if i < head.len() {
            assert(head[i] is StartJack);
        } else if i > head.len() {
            assert(tail[i - head.len() - 1] == EffectModel::StopJack(ends[i - head.len() - 1]));
            assert(ends[i - head.len() - 1] == jack);
        }
    }
    let b = head.len() as int;
    assert(e[b] == EffectModel::Broadcast);
    assert forall|k: int| 0 <= k < b implies #[trigger] e[k] is StartJack by {
        assert(e[k] == head[k]);
    }
    assert forall|k: int| b < k < e.len() implies #[trigger] e[k] is StopJack by {
        assert(e[k] == tail[k - b - 1]);
    }
}

pub(crate) proof fn lemma_configured(c: ConfigModel, jack: Seq<char>)
    ensures
        jack_names(c.jacks).contains(jack) <==> exists|i: int|
            0 <= i < c.jacks.len() && (#[trigger] c.jacks[i]).name == jack,
        has_jack(c.jacks, jack) <==> jack_names(c.jacks).contains(jack),
{
    lemma_first_named(c.jacks, jack);
    let names = jack_names(c.jacks);
    if names.contains(jack) {
        let i = choose|i: int| 0 <= i < names.len() && names[i] == jack;
        assert(c.jacks[i].name == jack);
    }
    if exists|i: int| 0 <= i < c.jacks.len() && (#[trigger] c.jacks[i]).name == jack {
        let i = choose|i: int| 0 <= i < c.jacks.len() && (#[trigger] c.jacks[i]).name == jack;
        assert(names[i] == jack);
    }
}

/// Bringing jacks in line one by one starts and stops the same ones, and announces
/// nothing.
pub proof fn each_jack_is_brought_in_line(m: AppModel, names: Seq<Seq<char>>, jack: Seq<char>)
    ensures
        moves(m, names).contains(EffectModel::StartJack(jack)) <==> names.contains(jack) && m.lifecycle(jack)
            == LifecycleMove::Start,
        moves(m, names).contains(EffectModel::StopJack(jack)) <==> names.contains(jack) && m.lifecycle(jack)
            == LifecycleMove::Stop,
        forall|k: int| 0 <= k < moves(m, names).len() ==> {
            ||| #[trigger] moves(m, names)[k] is StartJack
            ||| moves(m, names)[k] is StopJack
        },
    decreases names.len(),
{
    if names.len() > 0 {
        let front = names.drop_last();
        let last = names.last();
        each_jack_is_brought_in_line(m, front, jack);
        let before = moves(m, front);
        let all = moves(m, names);
        assert(names.contains(jack) <==> front.contains(jack) || last == jack) by {
            if front.contains(jack) {
                let i = choose|i: int| 0 <= i < front.len() && front[i] == jack;
                assert(names[i] == jack);
            }
            if last == jack {
                assert(names[names.len() - 1] == jack);
            }
            if names.contains(jack) {
                let i = choose|i: int| 0 <= i < names.len() && names[i] == jack;
                if i < front.len() {
                    assert(front[i] == jack);
                }
            }
        }
        assert forall|x: EffectModel| #[trigger] all.contains(x) <==> before.contains(x) || (m.lifecycle(last)
            == LifecycleMove::Start && x == EffectModel::StartJack(last)) || (m.lifecycle(last) == LifecycleMove::Stop
            && x == EffectModel::StopJack(last)) by {
            if before.contains(x) {
                let i = choose|i: int| 0 <= i < before.len() && before[i] == x;
                assert(all[i] == x);
            }
            if all.contains(x) {
                let i = choose|i: int| 0 <= i < all.len() && all[i] == x;
                if i < before.len() {
                    assert(before[i] == x);
                }
            }
            if !(m.lifecycle(last) == LifecycleMove::Keep) {
                assert(all[before.len() as int] == super::reload::move_effects(m, last)[0]);
            }
        }
        assert forall|k: int| 0 <= k < all.len() implies all[k] is StartJack || all[k] is StopJack by {
            if k < before.len() {
                assert(all[k] == before[k]);
            }
        }
    }
}

/// What is to be done is done only where it is still called for: nothing is started
/// that nobody wants or that runs, and nothing is stopped that somebody wants.
pub proof fn stale_effects_are_dropped(m: AppModel, jack: Seq<char>)
    ensures
        ({
            let wanted = switched_on(m.config, jack) || exists|client: Seq<char>| wanted_by(m.config, jack, client);
            let runs = m.upstream.contains_key(jack) && m.upstream[jack].status is Running;
            &&& is_due(m, EffectModel::StartJack(jack)) <==> wanted && !runs
            &&& is_due(m, EffectModel::StopJack(jack)) <==> !wanted
            &&& is_due(m, EffectModel::Broadcast)
        }),
{
    jacks_run_for_somebody(m.config, jack);
}

/// A reload that found a usable file takes it over as a whole: every jack of it is
/// brought in line, every jack that is gone is stopped, the change is announced, and
/// the listener moves where the port changed. A file that cannot be used changes no
/// switch, and says why; one that is missing changes nothing.
pub proof fn reloading_takes_the_file_over(m: AppModel, config: ConfigModel, jack: Seq<char>, why: Seq<char>)
    ensures
        ({
            let after = reloaded(m, Ok(config));
            let e = takeover_effects(m, config);
            let here = exists|i: int| 0 <= i < config.jacks.len() && (#[trigger] config.jacks[i]).name == jack;
            let was = exists|i: int| 0 <= i < m.config.jacks.len() && (#[trigger] m.config.jacks[i]).name == jack;
            &&& after == (AppModel { config, config_error: None, ..m })
            &&& here && after.lifecycle(jack) == LifecycleMove::Start ==> e.contains(EffectModel::StartJack(jack))
            &&& here && after.lifecycle(jack) == LifecycleMove::Stop ==> e.contains(EffectModel::StopJack(jack))
            &&& was && !here ==> e.contains(EffectModel::StopJack(jack))
            &&& e.contains(EffectModel::Broadcast)
            &&& config.port != m.config.port ==> e.contains(EffectModel::StartListener(config.port)) && e.contains(
                EffectModel::CloseStreams,
            )
            &&& config.port == m.config.port ==> e.last() == EffectModel::Broadcast
        }),
        reloaded(m, Err(LoadErrorModel::Missing)) == m,
        reloaded(m, Err(LoadErrorModel::Parse(why))) == (AppModel { config_error: Some(why), ..m }),
        reloaded(m, Err(LoadErrorModel::Io(why))) == (AppModel { config_error: Some(why), ..m }),
{
    let after = reloaded(m, Ok(config));
    let names = jack_names(config.jacks);
    let old_names = jack_names(m.config.jacks);
    let a = moves(after, names);
    let b = stops(config, old_names);
    let e = takeover_effects(m, config);
    each_jack_is_brought_in_line(after, names, jack);
    lemma_configured(config, jack);
    lemma_configured(m.config, jack);
    lemma_stops(config, old_names, jack);
    let rest = a + b;
    assert forall|x: EffectModel| a.contains(x) || b.contains(x) implies #[trigger] e.contains(x) by {
        if a.contains(x) {
            let i = choose|i: int| 0 <= i < a.len() && a[i] == x;
            assert(e[i] == x);
        } else {
            let i = choose|i: int| 0 <= i < b.len() && b[i] == x;
            assert(e[a.len() + i] == x);
        }
    }
    let k = rest.len() as int;
    assert(e[k] == EffectModel::Broadcast);
    if config.port != m.config.port {
        assert(e[k + 1] == EffectModel::CloseStreams);
        assert(e[k + 3] == EffectModel::StartListener(config.port));
    } else {
        assert(e.len() == k + 1);
    }
}

proof fn lemma_stops(c: ConfigModel, names: Seq<Seq<char>>, jack: Seq<char>)
    ensures
        stops(c, names).contains(EffectModel::StopJack(jack)) <==> names.contains(jack) && !has_jack(c.jacks, jack),
    decreases names.len(),
{
    if names.len() > 0 {
        let front = names.drop_last();
        let last = names.last();
        lemma_stops(c, front, jack);
        let before = stops(c, front);
        let all = stops(c, names);
        let x = EffectModel::StopJack(jack);
        if front.contains(jack) {
            let i = choose|i: int| 0 <= i < front.len() && front[i] == jack;
            assert(names[i] == jack);
        }
        if names.contains(jack) {
            let i = choose|i: int| 0 <= i < names.len() && names[i] == jack;
            if i < front.len() {
                assert(front[i] == jack);
            }
        }
        if last == jack {
            assert(names[names.len() - 1] == jack);
        }
        if before.contains(x) {
            let i = choose|i: int| 0 <= i < before.len() && before[i] == x;
            assert(all[i] == x);
        }
        if !has_jack(c.jacks, last) {
            assert(all[all.len() - 1] == EffectModel::StopJack(last));
        }
        if all.contains(x) {
            let i = choose|i: int| 0 <= i < all.len() && all[i] == x;
            if i < before.len() {
                assert(before[i] == x);
            }
        }
    }
}

/// A listener moves in one order: the streams end first, so that the old one can stop,
/// and then the new one starts on the new port.
pub proof fn the_listener_moves_in_order(port: u16)
    ensures
        rebind_effects(port).len() == 3,
        rebind_effects(port)[0] == EffectModel::CloseStreams,
        rebind_effects(port)[1] == EffectModel::StopListener,
        rebind_effects(port)[2] == EffectModel::StartListener(port),
{
}

/// A setting that is changed has its new value, and every other setting its old one.
pub proof fn settings_change_alone(c: ConfigModel, on: bool, port: u16, mode: crate::config::schema::UiMode)
    ensures
        c.with_autostart(on) == (ConfigModel { autostart: on, ..c }),
        c.with_require_approval(on) == (ConfigModel { require_approval_for_new_clients: on, ..c }),
        c.with_request_logging(on) == (ConfigModel { request_logging_enabled: on, ..c }),
        c.with_ui_mode(mode) == (ConfigModel { ui_mode: mode, ..c }),
        c.with_port(port) == (ConfigModel { port, ..c }),
{
}

/// Denying clients, and no longer denying them, brings the jacks in line and rebuilds
/// what the user sees; denying many is announced as well.
pub proof fn denials_take_effect(client: Seq<char>, count: nat, denied: bool)
    ensures
        forbidden_effects(client, denied).contains(EffectModel::ReconcileAll),
        forbidden_effects(client, denied).contains(EffectModel::NotifyStructure),
        batch_effects(count, denied).contains(EffectModel::ReconcileAll),
        batch_effects(count, denied).contains(EffectModel::Broadcast),
        batch_effects(count, denied).contains(EffectModel::NotifyStructure),
{
    assert(forbidden_effects(client, denied)[0] == EffectModel::ReconcileAll);
    assert(forbidden_effects(client, denied)[2] == EffectModel::NotifyStructure);
    assert(batch_effects(count, denied)[0] == EffectModel::ReconcileAll);
    assert(batch_effects(count, denied)[1] == EffectModel::Broadcast);
    assert(batch_effects(count, denied)[3] == EffectModel::NotifyStructure);
}

/// A batch that denies somebody who was not denied, or lifts a denial that there was,
/// is a change, and nothing else is.
pub proof fn batches_change_what_they_say(c: ConfigModel, clients: Seq<Seq<char>>)
    ensures
        batch_changes(c, clients, true) <==> exists|i: int|
            0 <= i < clients.len() && !c.forbidden_clients.contains(#[trigger] clients[i]),
        batch_changes(c, clients, false) <==> exists|i: int|
            0 <= i < c.forbidden_clients.len() && clients.contains(#[trigger] c.forbidden_clients[i]),
{
    lemma_batch(c.forbidden_clients, clients);
    let pred = |f: Seq<char>| !clients.contains(f);
    crate::name_map::lemma_filter_same(c.forbidden_clients, pred);
    if batch_changes(c, clients, false) {
        let i = choose|i: int| 0 <= i < c.forbidden_clients.len() && !pred(#[trigger] c.forbidden_clients[i]);
        assert(clients.contains(c.forbidden_clients[i]));
    }
}

proof fn lemma_batch(list: Seq<Seq<char>>, names: Seq<Seq<char>>)
    ensures
        crate::config::changes::names_with_all(list, names).len() >= list.len(),
        crate::config::changes::names_with_all(list, names).len() != list.len() <==> exists|i: int|
            0 <= i < names.len() && !list.contains(#[trigger] names[i]),
        crate::config::changes::names_with_all(list, names).len() == list.len()
            ==> crate::config::changes::names_with_all(list, names) == list,
    decreases names.len(),
{
    if names.len() > 0 {
        let front = names.drop_last();
        let last = names.last();
        lemma_batch(list, front);
        let before = crate::config::changes::names_with_all(list, front);
        if exists|i: int| 0 <= i < front.len() && !list.contains(#[trigger] front[i]) {
            let i = choose|i: int| 0 <= i < front.len() && !list.contains(#[trigger] front[i]);
            assert(!list.contains(names[i]));
        } else {
            assert(before == list);
            if !list.contains(last) {
                assert(!list.contains(names[names.len() - 1]));
            } else {
                assert forall|i: int| 0 <= i < names.len() implies list.contains(#[trigger] names[i]) by {
                    if i < front.len() {
                        assert(list.contains(front[i]));
                    }
                }
            }
        }
    }
}

// ---- jacks ---------------------------------------------------------------

/// A jack can be added exactly where its name is valid and not taken and its transport
/// has what it needs; otherwise the error says which of these it is.
pub proof fn jacks_can_be_added_or_are_refused(c: ConfigModel, jack: JackModel)
    ensures
        ({
            let taken = exists|i: int| 0 <= i < c.jacks.len() && (#[trigger] c.jacks[i]).name == jack.name;
            let lacks = match jack.transport {
                TransportModel::Stdio { command, .. } => command.len() == 0,
                TransportModel::StreamableHttp { url, .. } => url.len() == 0,
            };
            &&& add_error(c, jack) is None <==> valid_jack_name(jack.name) && !lacks && !taken
            &&& !valid_jack_name(jack.name) ==> add_error(c, jack) == Some(AddErrorModel::InvalidName(jack.name))
            &&& valid_jack_name(jack.name) && lacks ==> (add_error(c, jack) matches Some(
                AddErrorModel::MissingRequiredField(words),
            ) && words.len() > 0)
            &&& valid_jack_name(jack.name) && !lacks && taken ==> add_error(c, jack) == Some(
                AddErrorModel::DuplicateName(jack.name),
            )
        }),
{
    lemma_configured(c, jack.name);
    reveal_strlit("stdio transport requires a non-empty 'command'");
    reveal_strlit("streamable-http transport requires a non-empty 'url'");
}

/// A toggle is refused exactly where there is no such jack or the change could not be
/// saved, and then the switch that is reported is the one in force.
pub proof fn refused_toggles_report_what_is(m: AppModel, jack: Seq<char>, why: Seq<char>)
    ensures
        ({
            let here = exists|i: int| 0 <= i < m.config.jacks.len() && (#[trigger] m.config.jacks[i]).name == jack;
            &&& here && m.config_error is None ==> toggle_refused(m, jack, Ok(())) is None
            &&& !here ==> (toggle_refused(m, jack, Ok(())) matches Some(t) && !t.patched && t.status == "unknown"@)
            &&& here && m.config_error is None ==> (toggle_refused(m, jack, Err(why)) matches Some(t) && t.patched
                == switched_on(m.config, jack) && holds(t.status, why))
            &&& here && m.config_error is Some ==> (toggle_refused(m, jack, Ok(())) matches Some(t) && t.patched
                == switched_on(m.config, jack))
        }),
{
    lemma_configured(m.config, jack);
    crate::config::laws::global_switch_is_the_first(m.config, jack);
    lemma_within("failed to persist: "@, why, Seq::empty());
}

/// What is shown of a jack: its switch, the word for its transport, its status, and as
/// many tools as it has on offer, which are none unless it runs.
pub proof fn summaries_tell_what_is(m: AppModel, jack: JackModel)
    requires
        m.upstream.dom().finite(),
    ensures
        m.summary(jack).name == jack.name,
        m.summary(jack).patched == jack.patched,
        jack.transport is Stdio ==> m.summary(jack).transport == "stdio"@,
        jack.transport is StreamableHttp ==> m.summary(jack).transport == "streamable_http"@,
        m.upstream.contains_key(jack.name) && m.upstream[jack.name].status is Running && valid_jack_name(jack.name)
            ==> m.summary(jack).tool_count == m.upstream[jack.name].tool_cache.len() && m.summary(jack).status
            == "running"@,
        !(m.upstream.contains_key(jack.name) && m.upstream[jack.name].status is Running) ==> m.summary(jack).tool_count
            == 0,
        !m.upstream.contains_key(jack.name) ==> m.summary(jack).status == "unknown"@,
{
    super::jacks::lemma_tool_count(m, jack.name);
}

/// A jack that failed to start is reported as an error with its status, beside the
/// event; any other is reported by the event alone.
pub proof fn failed_starts_are_reported(name: Seq<char>, status: Seq<char>, event: Seq<char>, notify: EffectModel)
    ensures
        ({
            let e = report_effects(name, status, event, notify);
            &&& e.last() == notify
            &&& e.contains(EffectModel::RequestEvent(event))
            &&& occurs_at(status, "failed:"@, 0) ==> (e[0] matches EffectModel::RequestError(words) && holds(
                words,
                status,
            ) && holds(words, name))
            &&& !occurs_at(status, "failed:"@, 0) ==> e.len() == 2
        }),
{
    let e = report_effects(name, status, event, notify);
    if occurs_at(status, "failed:"@, 0) {
        assert(e[1] == EffectModel::RequestEvent(event));
        let words = super::jacks::start_failed_event(name, status);
        let head = "jack_start_failed"@ + " '"@;
        assert(words =~= head + name + ("'"@ + " ("@ + status + ")"@));
        lemma_within(head, name, "'"@ + " ("@ + status + ")"@);
        assert(words =~= (head + name + "'"@ + " ("@) + status + ")"@);
        lemma_within(head + name + "'"@ + " ("@, status, ")"@);
    } else {
        assert(e[0] == EffectModel::RequestEvent(event));
    }
}

// ---- who is let in -------------------------------------------------------

/// A client that is known, and one that is denied, needs no decision. A new one is
/// noted and let in, unless the user wants to be asked: then the user is asked once,
/// and whoever comes under the same name meanwhile waits for that answer.
pub proof fn new_clients_wait_for_the_user(m: AppModel, client: Seq<char>)
    requires
        client.len() > 0,
    ensures
        ({
            let known = exists|i: int|
                0 <= i < m.config.seen_clients.len() && (#[trigger] m.config.seen_clients[i]).name == client;
            let denied = m.config.forbidden_clients.contains(client);
            let asks = m.config.require_approval_for_new_clients;
            let asked = m.pending_approvals.contains(client);
            &&& m.approval(client) == ApprovalStep::Proceed <==> known || denied
            &&& m.approval(client) == ApprovalStep::Record <==> !known && !denied && !asks
            &&& m.approval(client) == ApprovalStep::Ask <==> !known && !denied && asks && !asked
            &&& m.approval(client) == ApprovalStep::Join <==> !known && !denied && asks && asked
        }),
{
    crate::config::changes::lemma_first_seen(m.config.seen_clients, client);
}

/// The user's decision ends the question and nobody else's, whatever came of saving it.
/// A refusal holds even where it could not be saved; a permission holds once it was.
/// Whoever waits is told, and where anything changed the jacks are brought in line.
pub proof fn decisions_end_the_question(
    m: AppModel,
    client: Seq<char>,
    version: Option<Seq<char>>,
    now: Seq<char>,
    allowed: bool,
    saved: Result<(), Seq<char>>,
    other: Seq<char>,
)
    ensures
        ({
            let after = m.decided(client, version, now, allowed, saved);
            let e = m.decision_effects(client, allowed);
            &&& !after.pending_approvals.contains(client)
            &&& other != client ==> after.pending_approvals.contains(other) == m.pending_approvals.contains(other)
            &&& !allowed ==> after.config.forbidden_clients.contains(client)
            &&& !allowed ==> after.config.seen_clients == m.config.seen_clients
            &&& allowed && m.config_error is None && saved is Ok ==> {
                &&& !after.config.forbidden_clients.contains(client)
                &&& exists|i: int|
                    0 <= i < after.config.seen_clients.len() && (#[trigger] after.config.seen_clients[i]).name == client
            }
            &&& allowed && saved is Err ==> after.config == m.config
            &&& other != client ==> after.config.forbidden_clients.contains(other)
                == m.config.forbidden_clients.contains(other)
            &&& after.config.jacks == m.config.jacks
            &&& after.config.client_overrides == m.config.client_overrides
            &&& after.sessions == m.sessions
            &&& after.upstream == m.upstream
            &&& e.contains(EffectModel::AnswerApproval { name: client, allowed }) <==> m.pending_approvals.contains(client)
            &&& after.config != m.config ==> e.contains(EffectModel::ReconcileAll) && e.contains(
                EffectModel::NotifyStructure,
            )
        }),
{
    let after = m.decided(client, version, now, allowed, saved);
    lemma_filter_holds(m.pending_approvals, crate::config::changes::other_than(client), client);
    lemma_filter_holds(m.pending_approvals, crate::config::changes::other_than(client), other);
    decisions_hold(m.config, client, version, now, allowed, other);
    crate::config::changes::lemma_first_seen(m.config.seen_clients, client);
    if allowed && !m.decision_changes(client, allowed) {
        let i = crate::config::changes::first_seen(m.config.seen_clients, client);
        assert(after.config.seen_clients[i].name == client);
    }
    let e = m.decision_effects(client, allowed);
    if m.pending_approvals.contains(client) {
        assert(e[0] == (EffectModel::AnswerApproval { name: client, allowed }));
    }
    if m.decision_changes(client, allowed) {
        assert(e[e.len() - 1] == EffectModel::ReconcileAll);
        assert(e[e.len() - 2] == EffectModel::NotifyStructure);
    }
}

/// A client's last sighting is refreshed once a minute at most.
pub proof fn sightings_are_refreshed_once_a_minute(m: AppModel, client: Seq<char>, secs: u64)
    ensures
        m.touched_lately(client, secs) <==> m.last_seen_touch.contains_key(client) && secs
            - m.last_seen_touch[client] < 60,
        m.last_seen_touch.contains_key(client) && m.last_seen_touch[client] + 60 <= secs ==> !m.touched_lately(
            client,
            secs,
        ),
{
}

/// Every reload rebuilds what the user sees and is noted; what a usable file asks for is
/// done before that, and a file that cannot be used asks for nothing.
pub proof fn reloads_are_noted(m: AppModel, config: ConfigModel, why: LoadErrorModel)
    ensures
        ({
            let done = takeover_effects(m, config);
            let e = super::reload::reload_effects(m, Ok(config));
            &&& e.len() == done.len() + 2
            &&& forall|k: int| 0 <= k < done.len() ==> #[trigger] e[k] == done[k]
            &&& e[done.len() as int] == EffectModel::NotifyStructure
            &&& e[done.len() as int + 1] is RequestEvent
            &&& super::reload::reload_effects(m, Err(why)).len() == 2
            &&& super::reload::reload_effects(m, Err(why))[0] == EffectModel::NotifyStructure
        }),
{
}

/// A client is new where it has a name and nobody noted it yet.
pub proof fn new_clients_are_those_nobody_noted(m: AppModel, client: Seq<char>)
    ensures
        m.is_new(client) <==> client.len() > 0 && !(exists|i: int|
            0 <= i < m.config.seen_clients.len() && (#[trigger] m.config.seen_clients[i]).name == client),
{
    crate::config::changes::lemma_first_seen(m.config.seen_clients, client);
}

/// What is told of a jack by its name is what is told of the first jack of that name.
pub proof fn summaries_are_found_by_name(m: AppModel, i: int)
    requires
        0 <= i < m.config.jacks.len(),
        forall|k: int| 0 <= k < i ==> (#[trigger] m.config.jacks[k]).name != m.config.jacks[i].name,
    ensures
        m.summary_of(m.config.jacks[i].name) == m.summary(m.config.jacks[i]),
{
    crate::config::grants::lemma_is_first_named(m.config.jacks, m.config.jacks[i].name, i);
}

} // verus!
