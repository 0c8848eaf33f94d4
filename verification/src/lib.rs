//! Paste lifecycle and access-control engine: creation rules, secret-gated
//! deletion, expiry on read and by sweep, the two token tiers, and the
//! report registry used for moderation.

mod clock;
pub mod config;
pub mod cryptography;
pub mod lifecycle;
pub mod middleware;
pub mod pastes;
pub mod reports;
pub mod routes;
pub mod status;
pub mod sweeper;
