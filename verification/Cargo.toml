[package]
name = "nextmini_dataplane"
version = "0.1.0"
edition = "2021"
publish = false

[dependencies]
ahash = "0.8"
bytes = "1"
chrono = "0.4"
clap-serde-derive = "*"
crossbeam-queue = "0.3"
futures = "0.3"
fxhash = "0.2"
hex = "0.4"
jumphash = "*"
network-interface = "2"
nix = { version = "0.30", features = ["fs", "hostname", "mman", "process", "sched", "signal"] }
num_cpus = "1"
once_cell = "1"
rand = "0.9"
rmp-serde = "1"
rtnetlink = "0.18"
s2n-quic = "1"
serde = { version = "1", features = ["derive"] }
sha2 = "0.10"
smoltcp = "0.12"
tokio = { version = "1", features = ["full"] }
tokio-splice = "*"
tokio-tungstenite = "*"
tokio-util = { version = "0.7", features = ["rt"] }
toml = "0.8"
tracing = "0.1"
tracing-subscriber = "0.3"
tun-rs = { version = "2", features = ["async_tokio"] }
url = "2"
