[package]
name = "prompt_composer"
version = "0.1.0"
edition = "2021"
publish = false

[dependencies]
fastrand = "2"
calamine = "*"
rust_xlsxwriter = "*"
serde = { version = "1", features = ["derive"] }
serde_json = "1"
thiserror = "*"
log = "0.4"
