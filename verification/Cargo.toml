[package]
name = "beer"
version = "0.1.0"
edition = "2021"
publish = false

[dependencies]
clap = { version = "=4.6.7", features = ["derive"] }
tokio = { version = "=1.54.1", features = ["rt-multi-thread", "io-std"] }
tower-lsp = "=0.20.0"
inkwell = { version = "=0.11.0", features = ["llvm14-0-force-dynamic"] }
