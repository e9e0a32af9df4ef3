[package]
name = "bench_rs"
version = "0.1.0"
edition = "2021"
publish = false

[dependencies]
anyhow = "1"
async-std = { version = "1", features = ["attributes"] }
clap = { version = "3", features = ["cargo"] }
crossbeam-channel = "0.5"
env_logger = "0.9"
log = "0.4"
num_cpus = "1"
surf = { version = "2", default-features = false, features = ["h1-client"] }
thiserror = "1"
url = "2"
