[package]
name = "trace_harness"
version = "0.1.0"
edition = "2021"
publish = false

[dependencies]
serde_json = "1"
serde_yaml = "0.9"
json_comments = "0.2"
difference = "2.0"
colored = "2"
serde = { version = "1", features = ["derive"] }
clap = { version = "4", features = ["derive"] }
tokio = { version = "1", features = ["rt-multi-thread", "macros", "sync", "time"] }
walkdir = "2"
indicatif = "0.17"
lazy_static = "1"
tracing = "0.1"
tracing-subscriber = { version = "0.3", features = ["env-filter"] }
