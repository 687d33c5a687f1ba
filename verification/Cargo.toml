[package]
name = "rsrv"
version = "0.1.0"
edition = "2021"
publish = false

[dependencies]
xxhash-rust = { version = "=0.8.19", features = ["xxh3"] }
xxai = "=0.1.2"
ub64 = { version = "=0.1.14", features = ["u64", "u64li"] }
vbyte = "=0.2.1"
vb = "=0.2.7"
intbin = "=0.2.4"
cookie = "=0.18.2"
aho-corasick = "=1.1.5"
dyn-fmt = "=0.4.3"
msgpacker = "=0.7.2"
anyhow = "=1.0.104"
serde_json = "=1.0.154"
coarsetime = "=0.1.38"
sts = "=0.1.23"
tokio = { version = "=1.54.1", features = ["rt-multi-thread", "macros", "sync", "time"] }
axum = "=0.8.9"
fred = "8"
tokio-postgres = "0.7"
reqwest = { version = "0.12", default-features = false }
parking_lot = "0.12"
