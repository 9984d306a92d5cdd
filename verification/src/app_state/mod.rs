//! The application's state and everything that changes it.
//!
//! A change that is written to disk goes in two steps. The function whose name
//! ends in `_write` says what is to be written, or why nothing may be. The
//! function that makes the change then takes what came of the writing: it
//! commits only what was saved, and says what has to happen next.

pub mod agents;
pub mod approvals;
pub mod clients;
pub mod identity;
pub mod jacks;
pub mod laws;
pub mod reload;
pub mod settings;
pub mod state;

pub use approvals::LAST_SEEN_THROTTLE_SECS;
pub use identity::{sanitize_client_name, MAX_CLIENT_NAME_LEN};
pub use jacks::{AddJackError, JackLine, JackSummary, RemoveJackError, ToggleResult};
pub use state::{AgentTombstone, AppState, GatewayStatus};
