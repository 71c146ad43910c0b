[package]
name = "danger_os"
version = "0.1.0"
edition = "2021"
publish = false

[dependencies]
petgraph = "=0.8.3"
anyhow = "=1.0.104"
serde = { version = "=1.0.229", features = ["derive"] }
serde_json = "=1.0.154"
tokio = { version = "=1.54.1", features = ["rt-multi-thread", "macros", "sync", "time"] }
async-trait = "=0.1.92"
clap = { version = "=4.6.7", features = ["derive"] }
libm = "=0.2.16"
uart_16550 = "=0.9.0"
bootloader_api = "=0.11.17"
bootloader = { version = "0.11", default-features = false, features = ["uefi"] }
