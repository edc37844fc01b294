[package]
name = "rninja"
version = "0.1.0"
edition = "2021"
publish = false

[dependencies]
blake3 = "1"
anyhow = "1"
clap = { version = "4", features = ["derive"] }
tracing = "0.1"
tracing-subscriber = { version = "0.3", features = ["env-filter"] }
num_cpus = "1"
dirs-next = "2"
serde = { version = "1", features = ["derive"] }
serde_json = "1"
rmp-serde = "1"
toml = "0.8"
tokio = { version = "1", features = ["rt-multi-thread", "macros", "time", "process", "fs", "sync"] }
sled = "0.34"
nng = "1"
notify = "6"
rayon = "1"
console = "0.15"
atty = "0.2"
uuid = { version = "1", features = ["v4"] }
which = "6"
hostname = "0.4"
libc = "0.2"
ctrlc = "3"
futures = "0.3"
parking_lot = "0.12"
thiserror = "1"

[dev-dependencies]
tempfile = "3"
