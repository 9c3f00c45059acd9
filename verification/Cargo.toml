[package]
name = "auden"
version = "0.1.0"
edition = "2021"
publish = false

[dependencies]
sha2 = "=0.10.9"
tree-sitter = "=0.20.10"
tree-sitter-rust = "=0.20.4"
walkdir = "=2.5.0"
anyhow = "=1.0.104"
log = "=0.4.34"
tokio = { version = "=1.54.1", features = ["rt-multi-thread", "sync", "time"] }
simple_logger = "=4.3.3"
serde = { version = "1", features = ["derive"] }
llm-chain = "0.13"
llm-chain-openai = "0.13"
