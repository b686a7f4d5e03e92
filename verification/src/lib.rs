//! The verified core of an internet radio: the player's decisions, the HLS client and the
//! station directory.

pub mod engine;
pub mod eq;
pub mod hls;
pub mod icy;
pub mod onda;
pub mod outside;
pub mod reconnect;
pub mod ring;
pub mod stations;
pub mod stream;
pub mod text;
pub mod time;
pub mod types;
