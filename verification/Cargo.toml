[package]
name = "dither_panels"
version = "0.2.0"
edition = "2021"
publish = false

[dependencies]
sysinfo = "*"
serde = { version = "1", features = ["derive"] }
serde_json = "1"
thiserror = "*"
uuid = { version = "1", features = ["v4"] }
log = "0.4"
