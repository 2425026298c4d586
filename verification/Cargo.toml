[package]
name = "zc_infer_core"
version = "0.1.0"
edition = "2021"
publish = false

[dependencies]
cudarc = { version = "0.12", default-features = false, features = ["std", "driver", "nvrtc", "cuda-12020"] }
io-uring = "0.7"
libc = "0.2"
serde = { version = "1", features = ["derive"] }
serde_json = "1"
thiserror = "1"
