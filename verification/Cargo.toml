[package]
name = "gleipnird"
version = "0.1.0"
edition = "2021"
publish = false

[dependencies]
lru_time_cache = "=0.11.11"
nfq = "=0.2.5"
ctrlc = "=3.5.2"
crossbeam-channel = "=0.5.17"
libc = "=0.2.190"
serde = { version = "*", features = ["derive"] }
serde_json = "*"
