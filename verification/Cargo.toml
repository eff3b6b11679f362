[package]
name = "cardbox"
version = "0.1.0"
edition = "2021"
publish = false

[dependencies]
anyhow = "1"
eventsdb = { version = "=0.5.0", features = ["sqlite"] }
hex = "=0.4.3"
htl = { version = "=0.19.0", default-features = false, features = ["macros", "std"] }
mlua-batteries = "=0.7.3"
serde_json = "=1.0.154"
sha2 = "=0.10.9"
tokio = { version = "1", features = ["rt", "time"] }

[dev-dependencies]
tempfile = "3"
