[package]
name = "vhs_diff"
version = "0.1.0"
edition = "2021"
publish = false

[dependencies]
serde = "=1.0.229"
rkyv = { version = "=0.7.46", features = ["validation", "archive_le"] }
