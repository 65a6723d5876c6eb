[package]
name = "orphan_pages"
version = "0.1.0"
edition = "2021"
publish = false

[dependencies]
regex = "1"
petgraph = "0.6"
anyhow = "1"
structopt = "0.3"
tokio = { version = "1", features = ["macros", "rt-multi-thread"] }
reqwest = { version = "0.11", default-features = false }
