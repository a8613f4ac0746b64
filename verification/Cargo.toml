[package]
name = "vcd_tools_rs"
version = "0.1.0"
edition = "2021"
publish = false

[dependencies]
vcd = "0.7"
blake3 = "1"
fst-reader = "*"
serde = { version = "1", features = ["derive"] }
serde_json = "1"
thiserror = "*"
anyhow = "1"
clap = { version = "4", features = ["derive"] }
env_logger = "*"
log = "0.4"
libc = "0.2"

[dev-dependencies]
tempfile = "3"
