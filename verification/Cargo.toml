[package]
name = "charging_sim_2"
version = "0.1.0"
edition = "2021"
publish = false

[dependencies]
uuid = { version = "1", features = ["v4"] }
rustc-hash = "2"
thiserror = "2"
serde = { version = "1", features = ["derive"] }
csv = "1"
log = "0.4"
rand = "*"
rand_distr = "*"
