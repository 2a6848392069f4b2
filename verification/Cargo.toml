[package]
name = "mcp_cli"
version = "0.1.0"
edition = "2021"
publish = false

[dependencies]
serde = { version = "1", features = ["derive"] }
serde_json = "1"
url = "2"
thiserror = "2"
rustix = { version = "1", features = ["process", "param"] }
tokio = { version = "1", features = ["rt-multi-thread", "macros", "net", "io-util", "time", "signal", "process", "sync"] }
