//! Chargebot: a Telegram bot that watches EV charger stations and reports availability changes.
//!
//! This crate holds the bot's logic: configuration checks, lookups over configured locations,
//! the state machine that turns Telegram updates and station updates into outgoing payloads and
//! watch commands, the station status differ and the decisions of the polling, webhook and retry
//! loops. The I/O around it lives in the companion application.

pub mod bot;
pub mod config;
pub mod datasource;
pub mod flo;
pub mod keyed;
pub mod logging;
pub mod telegram;
pub mod text;
pub mod utils;
pub mod whatever;
