//! Verified core of an interface monitor: byte formatting, interface
//! filtering, the speed-history ring buffer, text layout for the sidebar and
//! the application's navigation state machine.

pub mod app;
pub mod network;
pub mod types;
pub mod ui;
pub mod utils;
