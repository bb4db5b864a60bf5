[package]
name = "rouillespy"
version = "0.1.0"
edition = "2021"
publish = false

[dependencies]
clap = "4"
eframe = { version = "0.23", default-features = false, features = ["glow"] }
env_logger = "0.11"
log = "0.4"
thiserror = "1"
tokio = { version = "1", default-features = false, features = ["time"] }
