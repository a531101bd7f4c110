//! A status line plugin's message protocol and event handling.

pub mod clock;
pub mod command_laws;
pub mod config;
pub mod event_laws;
pub mod identity;
pub mod json;
pub mod number;
pub mod pipe;
pub mod pipe_laws;
pub mod plugin;
pub mod plugin_laws;
pub mod statuses;
pub mod statuses_laws;
pub mod table_laws;
pub mod text;
pub mod text_laws;
pub mod text_map;
