[package]
name = "task_mesh"
version = "0.1.0"
edition = "2021"
publish = false

[dependencies]
uuid = { version = "*", features = ["v4"] }
fastrand = "*"
flate2 = "*"
chrono = "*"
num_cpus = "*"
