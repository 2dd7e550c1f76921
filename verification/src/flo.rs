//! FLO API objects and the park watcher's decisions.

pub mod client;
pub mod models;
pub mod watch;
