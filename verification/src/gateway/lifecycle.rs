//! The life of the gateway: its listener, the jacks that are started with it,
//! and the sessions that are let go.

use vstd::prelude::*;
#[allow(unused_imports)]
use vstd::string::*;

use crate::app_state::state::{AppModel, AppState, GatewayModel, GatewayStatus};
use crate::config::grants::{find_jack, first_named};
use crate::numerals::{decimal, decimal_text};

verus! {

/// A session that is idle for this many milliseconds is let go.
pub const SESSION_MAX_IDLE_MS: u64 = 86_400_000;

/// At most this many sessions are kept.
pub const SESSION_CAP: usize = 500;

/// The address that the gateway listens at: this machine only.
pub open spec fn address(port: u16) -> Seq<char> {
    "127.0.0.1:"@ + decimal(port as nat)
}

/// The address that the gateway listens at.
pub fn bind_address(port: u16) -> (r: String)
    ensures
        r@ == address(port),
{
    let mut s = "127.0.0.1:".to_owned();
    s.append(decimal_text(port as u64).as_str());
    s
}

/// What came of the attempt to listen.
#[derive(Debug, PartialEq, Eq)]
pub enum BindOutcome {
    Bound,
    InvalidAddress(String),
    Failed(String),
}

/// The status after the attempt to listen.
pub open spec fn bound_status(port: u16, outcome: BindOutcome) -> GatewayModel {
    match outcome {
        BindOutcome::Bound => GatewayModel::Running { port },
        BindOutcome::InvalidAddress(e) => GatewayModel::Failed {
            reason: "invalid bind address "@ + address(port) + ": "@ + e@,
        },
        BindOutcome::Failed(e) => GatewayModel::Failed { reason: "bind "@ + address(port) + ": "@ + e@ },
    }
}

/// The status after a listener on `port` ended. A listener that was replaced
/// meanwhile has no say any more.
pub open spec fn ended_status(status: GatewayModel, port: u16, error: Option<Seq<char>>) -> GatewayModel {
    if status == (GatewayModel::Running { port }) {
        match error {
            Some(e) => GatewayModel::Failed { reason: "serve error: "@ + e },
            None => GatewayModel::Stopped,
        }
    } else {
        status
    }
}

/// Whether the jack at a position is started with the gateway: somebody needs
/// it, it is the first of its name, and nothing was ever done with it.
pub open spec fn starts_with_gateway(m: AppModel, i: int) -> bool {
    let name = m.config.jacks[i].name;
    &&& m.config.should_run(name)
    &&& first_named(m.config.jacks, name) == i
    &&& !m.upstream.contains_key(name)
}

impl AppState {
    /// Note what came of the attempt to listen. Returns whether the gateway
    /// serves now.
    pub fn gateway_bound(&mut self, port: u16, outcome: BindOutcome) -> (r: bool)
        ensures
            final(self)@ == (AppModel { status: bound_status(port, outcome), ..old(self)@ }),
            r == (outcome is Bound),
    {
        match outcome {
            BindOutcome::Bound => {
                self.status = GatewayStatus::Running { port };
                true
            },
            BindOutcome::InvalidAddress(e) => {
                let mut s = "invalid bind address ".to_owned();
                s.append(bind_address(port).as_str());
                s.append(": ");
                s.append(e.as_str());
                self.status = GatewayStatus::Failed { reason: s };
                false
            },
            BindOutcome::Failed(e) => {
                let mut s = "bind ".to_owned();
                s.append(bind_address(port).as_str());
                s.append(": ");
                s.append(e.as_str());
                self.status = GatewayStatus::Failed { reason: s };
                false
            },
        }
    }

    /// Set the status, but only while the gateway runs on `port`.
    pub fn set_status_if_port_matches(&mut self, port: u16, next: GatewayStatus)
        ensures
            final(self)@ == (AppModel {
                status: if old(self)@.status == (GatewayModel::Running { port }) {
                    next@
                } else {
                    old(self)@.status
                },
                ..old(self)@
            }),
    {
        let hit = match &self.status {
            GatewayStatus::Running { port: p } => *p == port,
            _ => false,
        };
        if hit {
            self.status = next;
        }
    }

    /// Note that the listener on `port` ended.
    pub fn gateway_ended(&mut self, port: u16, error: Option<String>)
        ensures
            final(self)@ == (AppModel {
                status: ended_status(old(self)@.status, port, crate::name_map::view_opt(error)),
                ..old(self)@
            }),
    {
        match error {
            Some(e) => {
                let mut s = "serve error: ".to_owned();
                s.append(e.as_str());
                self.set_status_if_port_matches(port, GatewayStatus::Failed { reason: s });
            },
            None => {
                self.set_status_if_port_matches(port, GatewayStatus::Stopped);
            },
        }
    }

    /// Whether the jack at position `i` is started with the gateway.
    pub fn starts_with_gateway(&self, i: usize) -> (r: bool)
        requires
            i < self.config.jacks@.len(),
        ensures
            r == starts_with_gateway(self@, i as int),
    {
        let name = self.config.jacks[i].name.as_str();
        assert(self@.config.jacks[i as int] == self.config.jacks@[i as int]@);
        proof {
            crate::config::grants::lemma_first_named(self@.config.jacks, name@);
        }
        if !self.config.should_run_jack(name) {
            return false;
        }
        let first = match find_jack(&self.config.jacks, name) {
            Some(k) => k == i,
            None => false,
        };
        first && !self.upstream.runtimes.contains_key(name)
    }

    /// The positions of the jacks that are started with the gateway.
    pub fn startup_jacks(&self) -> (r: Vec<usize>)
        ensures
            forall|k: int| 0 <= k < r@.len() ==> (#[trigger] r@[k]) < self@.config.jacks.len(),
            forall|k: int, l: int| 0 <= k < l < r@.len() ==> r@[k] < r@[l],
            forall|i: int|
                0 <= i < self@.config.jacks.len() ==> ((exists|k: int| 0 <= k < r@.len() && r@[k] == i)
                    <==> #[trigger] starts_with_gateway(self@, i)),
    {
        let mut out: Vec<usize> = Vec::new();
        let mut i: usize = 0;
        while i < self.config.jacks.len()
            invariant
                i <= self.config.jacks.len(),
                forall|k: int| 0 <= k < out@.len() ==> (#[trigger] out@[k]) < i,
                forall|k: int, l: int| 0 <= k < l < out@.len() ==> out@[k] < out@[l],
                forall|n: int|
                    0 <= n < i ==> ((exists|k: int| 0 <= k < out@.len() && out@[k] == n)
                        <==> #[trigger] starts_with_gateway(self@, n)),
            decreases self.config.jacks.len() - i,
        {
            let ghost prev = out@;
            let start = self.starts_with_gateway(i);
            if start {
                out.push(i);
            }
            i = i + 1;
            proof {
                assert forall|n: int| 0 <= n < i implies ((exists|k: int| 0 <= k < out@.len() && out@[k] == n)
                    <==> #[trigger] starts_with_gateway(self@, n)) by {
                    if n < i - 1 {
                        if exists|k: int| 0 <= k < prev.len() && prev[k] == n {
                            let k = choose|k: int| 0 <= k < prev.len() && prev[k] == n;
                            assert(out@[k] == n);
                        }
                        if exists|k: int| 0 <= k < out@.len() && out@[k] == n {
                            let k = choose|k: int| 0 <= k < out@.len() && out@[k] == n;
                            assert(prev[k] == n);
                        }
                    } else {
                        if start {
                            assert(out@[out@.len() - 1] == n);
                        }
                    }
                }
            }
        }
        out
    }
}

/// A listener that was replaced does not change the status of its successor.
pub proof fn replaced_listener_is_silent(status: GatewayModel, port: u16, error: Option<Seq<char>>)
    requires
        status != (GatewayModel::Running { port }),
    ensures
        ended_status(status, port, error) == status,
{
}

} // verus!
