[package]
name = "device_faker"
version = "0.1.0"
edition = "2021"
publish = false

[dependencies]
anyhow = "1"
jni = "*"
libc = "0.2"
log = "0.4"
memmap2 = "*"
serde = { version = "1", features = ["derive"] }
serde_json = "1"
toml = "*"
