[package]
name = "frama_c_mcp"
version = "0.1.0"
edition = "2021"
publish = false

[dependencies]
libc = "0.2"
rmcp = { version = "*", default-features = false }
serde_json = { version = "1", features = ["preserve_order"] }
sha2 = "0.10"
tokio = { version = "1", features = ["io-util", "macros", "net", "process", "rt", "sync", "time"] }
tracing = "0.1"
