[package]
name = "nget"
version = "0.1.0"
edition = "2021"
publish = false

[dependencies]
anyhow = "1"
better-panic = "0.3"
clap = { version = "4", features = ["derive"] }
ctrlc = "3"
futures = "0.3"
humansize = "2"
indicatif = "0.17"
num_cpus = "1"
reqwest = { version = "0.12", default-features = false, features = ["stream", "rustls-tls"] }
serde = { version = "1", features = ["derive"] }
serde_json = "1"
tokio = { version = "1", features = ["full"] }
