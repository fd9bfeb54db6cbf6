[package]
name = "godwoken"
version = "0.1.0"
edition = "2021"
publish = false

[dependencies]
blake2b-ref = "0.3"
sparse-merkle-tree = "*"
num_cpus = "1"
anyhow = "1"
clap = "2"
tokio = { version = "1", features = ["rt-multi-thread"] }
toml = "0.5"
tikv-jemallocator = "*"
