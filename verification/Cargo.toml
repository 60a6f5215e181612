[package]
name = "rust_llm"
version = "0.1.0"
edition = "2021"
publish = false

[dependencies]
anyhow = "=1.0.104"
serde = { version = "=1.0.229", features = ["derive"] }
serde_json = "=1.0.154"
clap = { version = "=4.6.7", features = ["derive"] }
tokio = { version = "=1.54.1", features = ["full"] }
tokio-stream = { version = "=0.1.19", features = ["sync"] }
async-stream = "=0.3.6"
futures = "=0.3.34"
axum = "=0.7.9"
tracing = "=0.1.44"
rayon = "=1.12.0"
bytemuck = "=1.25.2"
byteorder = "=1.5.0"
memmap2 = "=0.9.12"
