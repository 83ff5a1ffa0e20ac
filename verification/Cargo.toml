[package]
name = "gateway_core"
version = "0.1.0"
edition = "2021"
publish = false

[dependencies]
regex = "=1.13.1"
mur3 = "=0.1.0"
chrono = "=0.4.45"
num_cpus = "=1.17.0"
rand = "=0.10.3"
bincode = "=2.0.1"
serde = { version = "=1.0.229", features = ["derive"] }
serde_yml = "=0.0.13"
serde_json = "=1.0.151"
