[package]
name = "cashmere"
version = "0.1.0"
edition = "2021"
publish = false

[dependencies]
clap = { version = "=4.6.7", features = ["derive"] }
dashmap = "=6.2.1"
oxc_allocator = "=0.139.0"
oxc_ast = "=0.139.0"
oxc_parser = "=0.139.0"
oxc_semantic = "=0.139.0"
oxc_span = "=0.139.0"
tokio = { version = "=1.53.2", features = ["full"] }
tower-lsp = "=0.20.0"
walkdir = "=2.5.0"
