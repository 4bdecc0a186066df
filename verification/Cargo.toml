[package]
name = "dos"
version = "0.1.0"
edition = "2021"
publish = false

[dependencies]
nalgebra = "=0.35.0"
rayon = "=1.12.0"
serde = { version = "=1.0.229", features = ["derive"] }
serde-pickle = "=0.6.3"
log = "=0.4.34"
simple_logger = "=5.2.0"
thiserror = "=1.0.69"
