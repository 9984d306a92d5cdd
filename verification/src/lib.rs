//! Patchbay: the decision core of a tray application that fronts many MCP
//! servers ("jacks") behind one local gateway.

pub mod app_state;
pub mod approval;
pub mod config;
pub mod gateway;
pub mod json;
pub mod name_map;
pub mod numerals;
pub mod text;
pub mod tray;
pub mod ui;
pub mod upstream;
pub mod utils;
