//! Onda, the small player: one state cell, no session numbers, no watchdog, and every failure
//! goes through the backoff. It shares the ring, the titles, the backoff and the timeouts with
//! the full engine.

pub mod engine;
pub mod stream;
