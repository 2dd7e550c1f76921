//! Telegram API objects and the decisions of the components that talk to Telegram.

pub mod client;
pub mod models;
pub mod output;
pub mod polling;
pub mod webhook;
