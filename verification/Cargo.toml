[package]
name = "lipl_repo"
version = "0.1.0"
edition = "2021"
publish = false

[dependencies]
uuid = { version = "1", features = ["v4"] }
tokio = { version = "1", features = ["rt-multi-thread", "macros", "sync"] }
futures = "0.3"
async-trait = "0.1"
anyhow = "1"
thiserror = "1"
clap = { version = "4", features = ["derive"] }
tokio-postgres = "0.7"
deadpool-postgres = "*"
