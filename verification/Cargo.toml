[package]
name = "cloradar-tracker"
version = "0.1.0"
edition = "2021"
publish = false

[dependencies]
anyhow = "1"
bincode = "1.3"
config = { version = "0.13", default-features = false, features = ["yaml"] }
deadpool = { version = "0.9", default-features = false, features = ["unmanaged"] }
futures = "0.3"
hex = "0.4"
serde_json = "1"
sha2 = "0.10"
time = "0.3"
tokio = { version = "1", features = ["macros", "rt-multi-thread", "sync", "time"] }
tracing = "0.1"
uuid = "1"
