[package]
name = "pool_graph"
version = "0.1.0"
edition = "2021"
publish = false

[dependencies]
anyhow = "*"
clap = { version = "*", default-features = false, features = ["std", "derive", "env"] }
ethers-core = "*"
ethers-providers = "*"
neo4rs = "*"
tokio = { version = "*", features = ["rt-multi-thread", "macros"] }
url = "*"
