//! The station directory: radio-browser.info as the player sees it.
//!
//! There is one API server; its list request truncates silently at 1000 rows without an explicit
//! limit; `hidebroken=true` *is* the filter on the last check; a zero bitrate is "unknown", not
//! "broken" (kept, sorted last); the per-country cap is 750.

pub mod cache;
pub mod client;
pub mod filter;
pub mod model;
pub mod normalise;
pub mod service;
pub mod sorting;
pub mod srv;
pub mod store;
