[package]
name = "gpu_probe"
version = "0.1.0"
edition = "2021"
publish = false

[dependencies]
wgpu = { version = "*", features = ["serde"] }
sysinfo = "*"
rusqlite = { version = "*", features = ["bundled"] }
serde_json = "1"
thiserror = "*"
