[package]
name = "orbital_time_server"
version = "0.1.0"
edition = "2021"
publish = false

[dependencies]
sgp4 = "*"
chrono = "*"
clap = { version = "*", features = ["derive"] }
crossbeam-channel = "*"
serde = { version = "*", features = ["derive"] }
serde_json = "*"
num-complex = "*"
rustfft = "*"
nalgebra = "*"
rayon = "*"
libc = "*"
tracing = "*"
tracing-subscriber = "*"
