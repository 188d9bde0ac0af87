//! Versioned content templates: monotonic version allocation, read-through
//! record caching, content-addressed compilation caching, and rendering with
//! a write-through output cache and cascading invalidation.

pub mod api;
pub mod assoc;
pub mod codec;
pub mod config;
pub mod digest;
pub mod error;
pub mod jsoncheck;
pub mod keys;
pub mod kv;
pub mod middleware;
pub mod models;
pub mod rendering;
pub mod services;
pub mod store;
pub mod text;
pub mod vars;
