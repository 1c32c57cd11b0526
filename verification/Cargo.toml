[package]
name = "dynrpc"
version = "0.1.0"
edition = "2021"
publish = false

[dependencies]
anyhow = "*"
async-stream = "*"
bytes = "*"
clap = { version = "*", features = ["derive"] }
prost = "*"
prost-reflect = { version = "*", features = ["serde"] }
rsocket_rust = "*"
rsocket_rust_transport_websocket = "*"
serde_json = "*"
tokio = { version = "*", features = ["macros", "rt-multi-thread"] }
