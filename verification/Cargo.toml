[package]
name = "afs"
version = "0.1.0"
edition = "2021"
publish = false

[dependencies]
ignore = "0.4"
libc = "0.2"
notify = "*"
serde = { version = "1", features = ["derive"] }
serde_json = "1"
