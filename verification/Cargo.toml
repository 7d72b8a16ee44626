[package]
name = "ironbeard_mcp_filesystem"
version = "0.1.0"
edition = "2021"
publish = false

[dependencies]
anyhow = "*"
clap = { version = "*", features = ["derive"] }
globset = "*"
mime_guess = "*"
rmcp = { version = "*", features = ["server", "transport-io"] }
schemars = "*"
serde = { version = "*", features = ["derive"] }
similar = "*"
thiserror = "*"
tokio = { version = "*", features = ["full"] }
tracing = "*"
tracing-subscriber = "*"

[dev-dependencies]
tempfile = "*"
