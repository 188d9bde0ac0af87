pub mod auth;
pub mod metrics;
