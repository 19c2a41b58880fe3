[package]
name = "tors"
version = "0.1.0"
edition = "2021"
publish = false

[dependencies]
arboard = { version = "3", default-features = false }
clap = { version = "4", features = ["derive"] }
dirs = "5"
inquire = "0.7"
serde = { version = "1", features = ["derive"] }
serde_json = "1"
wl-clipboard-rs = "*"
yansi = "1"
