//! Errors of API calls, retry decisions and call metrics labels.

pub mod error;
pub mod metrics;
pub mod retry;
