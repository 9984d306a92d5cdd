//! The application's own settings.

use vstd::prelude::*;
#[allow(unused_imports)]
use vstd::string::*;

use super::state::{effects_0, effects_1, effects_2, effects_3, saving, AppState, Effect, EffectModel, Write};
use crate::config::schema::{ConfigModel, UiMode};
use crate::name_map::{views, Replica};
use crate::numerals::{decimal, decimal_text};

verus! {

impl ConfigModel {
    pub open spec fn with_autostart(self, autostart: bool) -> ConfigModel {
        ConfigModel { autostart, ..self }
    }

    pub open spec fn with_require_approval(self, on: bool) -> ConfigModel {
        ConfigModel { require_approval_for_new_clients: on, ..self }
    }

    pub open spec fn with_request_logging(self, on: bool) -> ConfigModel {
        ConfigModel { request_logging_enabled: on, ..self }
    }

    pub open spec fn with_ui_mode(self, ui_mode: UiMode) -> ConfigModel {
        ConfigModel { ui_mode, ..self }
    }

    pub open spec fn with_port(self, port: u16) -> ConfigModel {
        ConfigModel { port, ..self }
    }
}

/// What puts a new listener in place of the old one. The streams are closed first:
/// the old listener ends only when no client is attached to it.
pub open spec fn rebind_effects(port: u16) -> Seq<EffectModel> {
    seq![EffectModel::CloseStreams, EffectModel::StopListener, EffectModel::StartListener(port)]
}

pub(crate) fn rebind(port: u16) -> (r: Vec<Effect>)
    ensures
        views(r@) == rebind_effects(port),
{
    effects_3(Effect::CloseStreams, Effect::StopListener, Effect::StartListener(port))
}

impl AppState {
    /// What is to be written when the start with the desktop session changes.
    pub fn set_autostart_write(&self, enabled: bool) -> (r: Write)
        ensures
            r@ == self@.plan(self@.config.autostart != enabled, self@.config.with_autostart(enabled)),
    {
        let mut snap = self.config.replica();
        snap.autostart = enabled;
        self.planned(self.config.autostart != enabled, snap)
    }

    /// Start with the desktop session, or not. The session is told only after
    /// the configuration is safely on disk.
    pub fn set_autostart(&mut self, enabled: bool, saved: Result<(), String>) -> (r: (Result<(), String>, Vec<Effect>))
        ensures
            final(self)@ == old(self)@.committed(
                old(self)@.config.autostart != enabled,
                old(self)@.config.with_autostart(enabled),
                saving(saved),
            ),
            saving(r.0) == old(self)@.verdict(old(self)@.config.autostart != enabled, saving(saved)),
            views(r.1@) == old(self)@.effects(
                old(self)@.config.autostart != enabled,
                saving(saved),
                Seq::empty(),
                seq![EffectModel::SetAutorun(enabled), EffectModel::NotifyState],
            ),
            old(self)@.config_error is None && saved is Ok ==> {
                &&& r.0 is Ok
                &&& final(self)@.config.autostart == enabled
                &&& old(self)@.config.autostart != enabled ==> views(r.1@).contains(EffectModel::SetAutorun(enabled))
            },
            saved is Err ==> final(self)@ == old(self)@,
    {
        proof {
            assert(seq![EffectModel::SetAutorun(enabled), EffectModel::NotifyState][0] == EffectModel::SetAutorun(enabled));
        }
        let changed = self.config.autostart != enabled;
        let mut snap = self.config.replica();
        snap.autostart = enabled;
        match self.commit(changed, snap, saved) {
            Ok(false) => (Ok(()), effects_0()),
            Ok(true) => (Ok(()), effects_2(Effect::SetAutorun(enabled), Effect::NotifyState)),
            Err(e) => (Err(e), effects_0()),
        }
    }

    /// What is to be written when the approval of new clients changes.
    pub fn set_require_approval_write(&self, enabled: bool) -> (r: Write)
        ensures
            r@ == self@.plan(
                self@.config.require_approval_for_new_clients != enabled,
                self@.config.with_require_approval(enabled),
            ),
    {
        let mut snap = self.config.replica();
        snap.require_approval_for_new_clients = enabled;
        self.planned(self.config.require_approval_for_new_clients != enabled, snap)
    }

    /// Ask the user about clients that were never seen, or note them unasked.
    pub fn set_require_approval(&mut self, enabled: bool, saved: Result<(), String>) -> (r: (
        Result<(), String>,
        Vec<Effect>,
    ))
        ensures
            final(self)@ == old(self)@.committed(
                old(self)@.config.require_approval_for_new_clients != enabled,
                old(self)@.config.with_require_approval(enabled),
                saving(saved),
            ),
            saving(r.0) == old(self)@.verdict(
                old(self)@.config.require_approval_for_new_clients != enabled,
                saving(saved),
            ),
            views(r.1@) == old(self)@.effects(
                old(self)@.config.require_approval_for_new_clients != enabled,
                saving(saved),
                Seq::empty(),
                seq![EffectModel::NotifyState],
            ),
            old(self)@.config_error is None && saved is Ok ==> {
                &&& r.0 is Ok
                &&& final(self)@.config.require_approval_for_new_clients == enabled
                &&& old(self)@.config.require_approval_for_new_clients != enabled ==> views(r.1@).contains(EffectModel::NotifyState)
            },
            saved is Err ==> final(self)@ == old(self)@,
    {
        proof {
            assert(seq![EffectModel::NotifyState][0] == EffectModel::NotifyState);
        }
        let changed = self.config.require_approval_for_new_clients != enabled;
        let mut snap = self.config.replica();
        snap.require_approval_for_new_clients = enabled;
        match self.commit(changed, snap, saved) {
            Ok(false) => (Ok(()), effects_0()),
            Ok(true) => (Ok(()), effects_1(Effect::NotifyState)),
            Err(e) => (Err(e), effects_0()),
        }
    }

    /// What is to be written when the request log is switched.
    pub fn set_request_logging_enabled_write(&self, enabled: bool) -> (r: Write)
        ensures
            r@ == self@.plan(
                self@.config.request_logging_enabled != enabled,
                self@.config.with_request_logging(enabled),
            ),
    {
        let mut snap = self.config.replica();
        snap.request_logging_enabled = enabled;
        self.planned(self.config.request_logging_enabled != enabled, snap)
    }

    /// Keep a log of requests, or none.
    pub fn set_request_logging_enabled(&mut self, enabled: bool, saved: Result<(), String>) -> (r: (
        Result<(), String>,
        Vec<Effect>,
    ))
        ensures
            final(self)@ == old(self)@.committed(
                old(self)@.config.request_logging_enabled != enabled,
                old(self)@.config.with_request_logging(enabled),
                saving(saved),
            ),
            saving(r.0) == old(self)@.verdict(
                old(self)@.config.request_logging_enabled != enabled,
                saving(saved),
            ),
            views(r.1@) == old(self)@.effects(
                old(self)@.config.request_logging_enabled != enabled,
                saving(saved),
                Seq::empty(),
                seq![EffectModel::NotifyState],
            ),
            old(self)@.config_error is None && saved is Ok ==> {
                &&& r.0 is Ok
                &&& final(self)@.config.request_logging_enabled == enabled
                &&& old(self)@.config.request_logging_enabled != enabled ==> views(r.1@).contains(EffectModel::NotifyState)
            },
            saved is Err ==> final(self)@ == old(self)@,
    {
        proof {
            assert(seq![EffectModel::NotifyState][0] == EffectModel::NotifyState);
        }
        let changed = self.config.request_logging_enabled != enabled;
        let mut snap = self.config.replica();
        snap.request_logging_enabled = enabled;
        match self.commit(changed, snap, saved) {
            Ok(false) => (Ok(()), effects_0()),
            Ok(true) => (Ok(()), effects_1(Effect::NotifyState)),
            Err(e) => (Err(e), effects_0()),
        }
    }

    /// What is to be written when the user interface changes.
    pub fn set_ui_mode_write(&self, mode: UiMode) -> (r: Write)
        ensures
            r@ == self@.plan(self@.config.ui_mode != mode, self@.config.with_ui_mode(mode)),
    {
        let mut snap = self.config.replica();
        snap.ui_mode = mode;
        self.planned(self.config.ui_mode != mode, snap)
    }

    /// Choose the user interface that the tray icon drives.
    pub fn set_ui_mode(&mut self, mode: UiMode, saved: Result<(), String>) -> (r: (Result<(), String>, Vec<Effect>))
        ensures
            final(self)@ == old(self)@.committed(
                old(self)@.config.ui_mode != mode,
                old(self)@.config.with_ui_mode(mode),
                saving(saved),
            ),
            saving(r.0) == old(self)@.verdict(old(self)@.config.ui_mode != mode, saving(saved)),
            views(r.1@) == old(self)@.effects(
                old(self)@.config.ui_mode != mode,
                saving(saved),
                Seq::empty(),
                seq![EffectModel::NotifyState],
            ),
            old(self)@.config_error is None && saved is Ok ==> r.0 is Ok && final(self)@.config.ui_mode == mode,
            saved is Err ==> final(self)@ == old(self)@,
    {
        let changed = self.config.ui_mode != mode;
        let mut snap = self.config.replica();
        snap.ui_mode = mode;
        match self.commit(changed, snap, saved) {
            Ok(false) => (Ok(()), effects_0()),
            Ok(true) => (Ok(()), effects_1(Effect::NotifyState)),
            Err(e) => (Err(e), effects_0()),
        }
    }

    /// What is to be written when the gateway's port changes.
    pub fn set_port_write(&self, port: u16) -> (r: Write)
        ensures
            r@ == self@.plan(port != 0 && self@.config.port != port, self@.config.with_port(port)),
    {
        let mut snap = self.config.replica();
        snap.port = port;
        self.planned(port != 0 && self.config.port != port, snap)
    }

    /// Change the gateway's port: a new listener takes the place of the old one. Nothing is rebound
    /// where the configuration could not be written.
    pub fn set_port(&mut self, port: u16, saved: Result<(), String>) -> (r: (Result<(), String>, Vec<Effect>))
        ensures
            port == 0 ==> {
                &&& final(self)@ == old(self)@
                &&& saving(r.0) == Err::<(), Seq<char>>("port must be between 1 and 65535"@)
                &&& views(r.1@) == Seq::<EffectModel>::empty()
            },
            port != 0 ==> {
                let changed = old(self)@.config.port != port;
                &&& final(self)@ == old(self)@.committed(
                    changed,
                    old(self)@.config.with_port(port),
                    saving(saved),
                )
                &&& saving(r.0) == old(self)@.verdict(changed, saving(saved))
                &&& views(r.1@) == old(self)@.effects(
                    changed,
                    saving(saved),
                    Seq::empty(),
                    rebind_effects(port).push(
                        EffectModel::RequestEvent("gateway_port_rebind "@ + decimal(port as nat)),
                    ).push(EffectModel::NotifyState),
                )
            },
            port != 0 && old(self)@.config_error is None && saved is Ok ==> {
                &&& r.0 is Ok
                &&& final(self)@.config.port == port
                &&& old(self)@.config.port != port ==> views(r.1@).contains(EffectModel::StartListener(port))
            },
            saved is Err ==> final(self)@ == old(self)@,
    {
        proof {
            let told = rebind_effects(port).push(
                EffectModel::RequestEvent("gateway_port_rebind "@ + decimal(port as nat)),
            ).push(EffectModel::NotifyState);
            assert(told[2] == EffectModel::StartListener(port));
        }
        if port == 0 {
            return (Err("port must be between 1 and 65535".to_owned()), effects_0());
        }
        let changed = self.config.port != port;
        let mut snap = self.config.replica();
        snap.port = port;
        match self.commit(changed, snap, saved) {
            Ok(false) => (Ok(()), effects_0()),
            Ok(true) => {
                let mut text = "gateway_port_rebind ".to_owned();
                text.append(decimal_text(port as u64).as_str());
                let mut out = rebind(port);
                let ghost prev = views(out@);
                out.push(Effect::RequestEvent(text));
                out.push(Effect::NotifyState);
                assert(views(out@) =~= prev.push(EffectModel::RequestEvent(text@)).push(EffectModel::NotifyState));
                (Ok(()), out)
            },
            Err(e) => (Err(e), effects_0()),
        }
    }
}

} // verus!
