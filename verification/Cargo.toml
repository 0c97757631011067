[package]
name = "fabric_servers"
version = "0.1.0"
edition = "2021"
publish = false

[dependencies]
anyhow = "1"
atomic_enum = "0.3"
base64 = "0.22"
bytes = "1"
dirs = "6"
log = "0.4"
nix = { version = "0.30", features = ["signal"] }
regex = "1"
serde_json = "1"
systemd-journal-logger = "2"
tokio = { version = "1", features = ["fs", "io-util", "macros", "net", "rt-multi-thread", "time"] }
valence_protocol = "0.2.0-alpha.1"
