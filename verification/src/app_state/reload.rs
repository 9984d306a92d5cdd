//! Taking over a configuration that was changed on disk.

use vstd::prelude::*;
#[allow(unused_imports)]
use vstd::string::*;

use super::jacks::LifecycleMove;
use super::settings::{rebind, rebind_effects};
use super::state::{AppModel, AppState, Effect, EffectModel};
use crate::config::grants::{find_jack, has_jack, jack_names};
use crate::config::load::{ConfigError, LoadErrorModel};
use crate::config::schema::{ConfigModel, PatchbayConfig};
use crate::name_map::views;
use crate::text::texts;

verus! {

/// The effect of bringing one jack in line, where there is one.
pub open spec fn move_effects(m: AppModel, name: Seq<char>) -> Seq<EffectModel> {
    match m.lifecycle(name) {
        LifecycleMove::Start => seq![EffectModel::StartJack(name)],
        LifecycleMove::Stop => seq![EffectModel::StopJack(name)],
        LifecycleMove::Keep => Seq::empty(),
    }
}

/// The effects of bringing the jacks `names` in line, one by one.
pub open spec fn moves(m: AppModel, names: Seq<Seq<char>>) -> Seq<EffectModel>
    decreases names.len(),
{
    if names.len() == 0 {
        Seq::empty()
    } else {
        moves(m, names.drop_last()) + move_effects(m, names.last())
    }
}

/// The effects of stopping those of the jacks `names` that are gone.
pub open spec fn stops(c: ConfigModel, names: Seq<Seq<char>>) -> Seq<EffectModel>
    decreases names.len(),
{
    if names.len() == 0 {
        Seq::empty()
    } else if has_jack(c.jacks, names.last()) {
        stops(c, names.drop_last())
    } else {
        stops(c, names.drop_last()).push(EffectModel::StopJack(names.last()))
    }
}

/// Whether an effect is still called for in the state `m`: a jack that runs by now,
/// or that nobody needs any more, is not started, and one that somebody needs
/// again is not stopped.
pub open spec fn is_due(m: AppModel, effect: EffectModel) -> bool {
    match effect {
        EffectModel::StartJack(name) => m.lifecycle(name) == LifecycleMove::Start,
        EffectModel::StopJack(name) => !m.config.should_run(name),
        _ => true,
    }
}

/// The state after a reload. A file that cannot be used changes nothing but the
/// error that is shown, and one that is missing changes nothing at all.
pub open spec fn reloaded(m: AppModel, loaded: Result<ConfigModel, LoadErrorModel>) -> AppModel {
    match loaded {
        Ok(config) => AppModel { config, config_error: None, ..m },
        Err(LoadErrorModel::Missing) => m,
        Err(e) => AppModel { config_error: Some(e.reason()), ..m },
    }
}

/// The effects of a reload that took over a configuration.
pub open spec fn takeover_effects(m: AppModel, config: ConfigModel) -> Seq<EffectModel> {
    let after = reloaded(m, Ok(config));
    moves(after, jack_names(config.jacks)) + stops(config, jack_names(m.config.jacks)) + seq![
        EffectModel::Broadcast,
    ] + (if config.port != m.config.port {
        rebind_effects(config.port).push(EffectModel::RequestEvent("gateway_port_rebind"@))
    } else {
        Seq::empty()
    })
}

/// The effects of a reload.
pub open spec fn reload_effects(m: AppModel, loaded: Result<ConfigModel, LoadErrorModel>) -> Seq<EffectModel> {
    (match loaded {
        Ok(config) => takeover_effects(m, config),
        Err(_) => Seq::empty(),
    }) + seq![EffectModel::NotifyStructure, EffectModel::RequestEvent("reload_config"@)]
}

/// The model of what a loading gives.
pub open spec fn loading(r: Result<PatchbayConfig, ConfigError>) -> Result<ConfigModel, LoadErrorModel> {
    match r {
        Ok(c) => Ok(c@),
        Err(e) => Err(e@),
    }
}

impl AppState {
    fn push_moves(&self, names: &Vec<String>, out: &mut Vec<Effect>)
        ensures
            views(final(out)@) == views(old(out)@) + moves(self@, texts(names@)),
    {
        let ghost base = views(out@);
        let ghost all = texts(names@);
        assert(all.subrange(0, 0) =~= Seq::<Seq<char>>::empty());
        assert(base + Seq::<EffectModel>::empty() =~= base);
        let mut i: usize = 0;
        while i < names.len()
            invariant
                i <= names.len(),
                all == texts(names@),
                views(out@) == base + moves(self@, all.subrange(0, i as int)),
            decreases names.len() - i,
        {
            let ghost prev = views(out@);
            let ghost step = all.subrange(0, i + 1);
            assert(step.drop_last() =~= all.subrange(0, i as int));
            assert(step.last() == names@[i as int]@);
            match self.lifecycle_move(names[i].as_str()) {
                LifecycleMove::Start => {
                    out.push(Effect::StartJack(names[i].clone()));
                },
                LifecycleMove::Stop => {
                    out.push(Effect::StopJack(names[i].clone()));
                },
                LifecycleMove::Keep => {},
            }
            assert(views(out@) =~= prev + move_effects(self@, names@[i as int]@));
            assert(views(out@) =~= base + moves(self@, step));
            i = i + 1;
        }
        assert(all.subrange(0, all.len() as int) =~= all);
    }

    fn push_stops(&self, names: &Vec<String>, out: &mut Vec<Effect>)
        ensures
            views(final(out)@) == views(old(out)@) + stops(self@.config, texts(names@)),
    {
        let ghost base = views(out@);
        let ghost all = texts(names@);
        assert(all.subrange(0, 0) =~= Seq::<Seq<char>>::empty());
        assert(base + Seq::<EffectModel>::empty() =~= base);
        let mut i: usize = 0;
        while i < names.len()
            invariant
                i <= names.len(),
                all == texts(names@),
                views(out@) == base + stops(self@.config, all.subrange(0, i as int)),
            decreases names.len() - i,
        {
            let ghost prev = views(out@);
            let ghost step = all.subrange(0, i + 1);
            assert(step.drop_last() =~= all.subrange(0, i as int));
            assert(step.last() == names@[i as int]@);
            if find_jack(&self.config.jacks, names[i].as_str()).is_none() {
                out.push(Effect::StopJack(names[i].clone()));
                assert(views(out@) =~= prev.push(EffectModel::StopJack(names@[i as int]@)));
            }
            assert(views(out@) =~= base + stops(self@.config, step));
            i = i + 1;
        }
        assert(all.subrange(0, all.len() as int) =~= all);
    }

    /// What brings every jack in line with the configuration, one after the other
    /// in display order, with no announcement.
    pub fn reconcile_each_jack_lifecycle(&self) -> (r: Vec<Effect>)
        ensures
            views(r@) == moves(self@, jack_names(self@.config.jacks)),
    {
        let names = self.config.jack_names();
        let mut out: Vec<Effect> = Vec::new();
        self.push_moves(&names, &mut out);
        assert(views(out@) =~= moves(self@, jack_names(self@.config.jacks)));
        out
    }

    /// Whether an effect is still called for once its turn comes: others may have
    /// changed the state meanwhile.
    pub fn still_due(&self, effect: &Effect) -> (r: bool)
        ensures
            r == is_due(self@, effect@),
    {
        match effect {
            Effect::StartJack(name) => self.lifecycle_move(name.as_str()) == LifecycleMove::Start,
            Effect::StopJack(name) => !self.config.should_run_jack(name.as_str()),
            _ => true,
        }
    }

    /// Take over a configuration that was read again from disk. Jacks are brought
    /// in line with it, and the listener follows its port.
    pub fn reload(&mut self, loaded: Result<PatchbayConfig, ConfigError>) -> (r: Vec<Effect>)
        ensures
            final(self)@ == reloaded(old(self)@, loading(loaded)),
            views(r@) == reload_effects(old(self)@, loading(loaded)),
    {
        let ghost m = self@;
        let ghost model = loading(loaded);
        let mut out: Vec<Effect> = Vec::new();
        assert(views(out@) =~= Seq::<EffectModel>::empty());
        match loaded {
            Ok(new_cfg) => {
                let old_names = self.config.jack_names();
                let new_names = new_cfg.jack_names();
                let port: u16 = new_cfg.port;
                let port_changed = port != self.config.port;
                let ghost config = new_cfg@;
                self.config = new_cfg;
                self.config_error = None;
                self.push_moves(&new_names, &mut out);
                self.push_stops(&old_names, &mut out);
                let ghost prev = views(out@);
                out.push(Effect::Broadcast);
                assert(views(out@) =~= prev + seq![EffectModel::Broadcast]);
                if port_changed {
                    let ghost prev = views(out@);
                    let mut more = rebind(port);
                    out.append(&mut more);
                    out.push(Effect::RequestEvent("gateway_port_rebind".to_owned()));
                    assert(views(out@) =~= prev + rebind_effects(port).push(
                        EffectModel::RequestEvent("gateway_port_rebind"@),
                    ));
                }
                assert(views(out@) =~= takeover_effects(m, config));
            },
            Err(ConfigError::Missing) => {},
            Err(e) => {
                self.config_error = Some(e.reason());
            },
        }
        let ghost prev = views(out@);
        out.push(Effect::NotifyStructure);
        out.push(Effect::RequestEvent("reload_config".to_owned()));
        assert(views(out@) =~= prev + seq![
            EffectModel::NotifyStructure,
            EffectModel::RequestEvent("reload_config"@),
        ]);
        out
    }
}

/// A configuration file that cannot be used never takes the place of the one in
/// force.
pub proof fn unusable_file_changes_no_grant(m: AppModel, e: LoadErrorModel)
    ensures
        reloaded(m, Err(e)).config == m.config,
        reloaded(m, Err(e)).sessions == m.sessions,
        reloaded(m, Err(e)).upstream == m.upstream,
{
}

} // verus!
