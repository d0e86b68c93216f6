[package]
name = "lac_to_lbrn2"
version = "0.1.0"
edition = "2021"
publish = false

[dependencies]
base64 = "0.22"
serde_json = "1"
tempfile = "3"
clap = { version = "4", features = ["derive"] }
zip = { version = "*", default-features = false, features = ["deflate"] }
