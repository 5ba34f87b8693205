//! A key-value cache with per-key expiry, and a minimal HTTP page server.

pub mod api;
pub mod configs;
pub mod decimal;
pub mod http;
pub mod memcache;
pub mod requests;
