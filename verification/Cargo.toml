[package]
name = "delta_patcher"
version = "0.1.0"
edition = "2021"
publish = false

[dependencies]
clap = { version = "4", features = ["derive"] }
cortex-m = "0.7"
crossbeam-channel = "0.5"
pbr = "1"
static_assertions = "1"
