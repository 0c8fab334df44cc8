[package]
name = "vine_core"
version = "0.1.0"
edition = "2021"
publish = false

[dependencies]
async-trait = "*"
axum = "*"
config = "*"
dashmap = "*"
lazy_static = "*"
linkme = "*"
log = "*"
log4rs = "*"
proc-macro2 = "*"
quote = "*"
regex = "*"
serde = { version = "*", features = ["derive"] }
serde_json = "*"
syn = { version = "*", features = ["full"] }
tokio = { version = "*", features = ["full"] }
