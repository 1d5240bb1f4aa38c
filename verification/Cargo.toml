[package]
name = "razee"
version = "0.1.0"
edition = "2021"
publish = false

[dependencies]
node-semver = "2"
elsa = "1"
flate2 = "1"
tar = "0.4"
bytes = "1"
reqwest = { version = "0.12", features = ["json"] }
reqwest-middleware = "0.4"
reqwest-retry = "0.7"
tokio = { version = "1", features = ["macros", "rt-multi-thread", "sync"] }
futures = "0.3"
async-recursion = "1"
serde = { version = "1", features = ["derive"] }
serde_json = { version = "1", features = ["preserve_order"] }
walkdir = "2"
