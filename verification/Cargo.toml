[package]
name = "ondar"
version = "0.1.0"
edition = "2021"
publish = false

[dependencies]
url = "=2.5.8"
flate2 = "=1.1.10"
rtrb = "=0.3.6"
biquad = "=0.6.0"
bytes = "1"
futures-core = "0.3"
hickory-resolver = "=0.26.3"
hyper = "=1.12.0"
log = "0.4"
reqwest = "=0.13.5"
rodio = { version = "=0.22.2", default-features = false, features = ["flac", "mp3", "mp4", "vorbis", "wav"] }
rusqlite = { version = "=0.41.1", features = ["bundled"] }
serde = { version = "1", features = ["derive"] }
serde_json = "1"
stream-download = { version = "=0.24.5", default-features = false, features = ["reqwest"] }
thiserror = "2"
tokio = { version = "1", features = ["rt-multi-thread", "sync", "time", "macros"] }
tokio-util = "0.7"
ts-rs = "=12.0.1"
