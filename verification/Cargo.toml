[package]
name = "ashmaize_solver"
version = "0.1.0"
edition = "2021"
publish = false

[dependencies]
blake2 = "=0.10.6"
hex = "=0.4.3"
cudarc = { version = "=0.12.1", features = ["cuda-12020"] }
clap = { version = "=4.6.7", features = ["derive"] }
rayon = "=1.12.0"
