[package]
name = "rho_lang"
version = "1.0.0"
edition = "2021"
publish = false

[dependencies]
anyhow = "1"
clap = { version = "4", features = ["derive"] }
libloading = "*"
petgraph = "*"
thiserror = "*"
