[package]
name = "time-strike"
version = "0.2.3"
edition = "2021"
publish = false

[dependencies]
anyhow = "1"
fs2 = "0.4"
rmcp = { version = "*", features = ["server", "macros", "transport-io"] }
schemars = "1"
serde = { version = "1", features = ["derive"] }
serde_json = "1"
tokio = { version = "1", features = ["macros", "rt-multi-thread", "io-std"] }
toml = "*"
