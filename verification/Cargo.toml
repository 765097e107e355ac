[package]
name = "bitswap_wantlist"
version = "0.1.0"
edition = "2021"
publish = false

[dependencies]
bytes = "=1.12.1"
chrono = { version = "=0.4.45", features = ["serde"] }
cid = "=0.6.1"
clap = "=2.34.0"
csv = "=1.4.0"
failure = "=0.1.8"
flate2 = "=1.1.10"
futures = "=0.3.34"
http = "0.2"
ipfs-api = "0.11"
itertools = "=0.10.5"
lapin = "=2.5.5"
log = "=0.4.34"
multibase = "=0.9.3"
parity-multiaddr = "=0.11.2"
protobuf = "=2.25.2"
rand = "0.8"
reqwest = { version = "0.11", features = ["blocking", "json"] }
serde = { version = "=1.0.229", features = ["derive"] }
serde_json = "=1.0.154"
serde_repr = "=0.1.21"
tokio = { version = "=1.54.1", features = ["full"] }
