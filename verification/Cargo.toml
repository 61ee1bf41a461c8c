[package]
name = "tf2_frag_demo_helper"
version = "0.1.0"
edition = "2021"
publish = false

[dependencies]
anyhow = "1"
chrono = "0.4"
dirs = "*"
hex = "0.4"
parking_lot = "0.12"
rayon = "1"
serde = { version = "1", features = ["derive"] }
serde_json = "1"
sha2 = "0.10"
sysinfo = "*"
walkdir = "2"
zip = { version = "*", default-features = false, features = ["deflate"] }
