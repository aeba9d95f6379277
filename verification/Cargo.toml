[package]
name = "committee_service"
version = "0.1.0"
edition = "2021"
publish = false

[dependencies]
rand = "0.8"
tokio = { version = "1", default-features = false, features = ["sync"] }
async-trait = "0.1"
anyhow = "1"
tracing = "0.1"
tower = { version = "0.4", default-features = false, features = ["util"] }
futures = "0.3"
