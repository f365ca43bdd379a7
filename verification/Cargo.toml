[package]
name = "zebra_audit"
version = "0.1.0"
edition = "2021"
publish = false

[dependencies]
sha2 = "=0.10.9"
hex = "=0.4.3"
byteorder = "=1.5.0"
bytes = "=1.12.1"
thiserror = "=1.0.69"
anyhow = "=1.0.104"
serde = { version = "=1.0.229", features = ["derive"] }
serde_json = "=1.0.154"
clap = { version = "=4.6.7", features = ["derive"] }
walkdir = "=2.5.0"
tracing = "=0.1.44"
tracing-subscriber = { version = "=0.3.23", features = ["env-filter", "fmt"] }
tokio = { version = "=1.54.1", features = ["rt-multi-thread", "macros", "sync"] }
rand_core = { version = "=0.6.4", features = ["getrandom"] }
metrics = "=0.24.6"
