//! The configuration: its shape, its rules and its secrets.

pub mod changes;
pub mod grants;
pub mod laws;
pub mod load;
pub mod schema;
pub mod secrets;
pub mod validate;

pub use load::{
    config_file_path, example_file_path, first_run_template, load_result, safe_default, state_path_for,
    ConfigError, RuntimeState,
};
pub use schema::{
    ClientOverride, JackConfig, JackConfigInput, JackTransport, PatchbayConfig, SeenClient, Sharing, UiMode,
    CURRENT_VERSION, DEFAULT_PORT,
};
pub use validate::{is_valid_jack_name, validate};
