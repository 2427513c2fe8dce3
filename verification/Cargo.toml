[package]
name = "yamaha_rcp_to_osc"
version = "0.1.0"
edition = "2021"
publish = false

[dependencies]
rosc = "*"
tokio = { version = "1", features = ["full"] }
clap = { version = "4", features = ["derive"] }
