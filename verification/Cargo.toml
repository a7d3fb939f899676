[package]
name = "select_ball"
version = "0.1.0"
edition = "2021"
publish = false

[dependencies]
image = { version = "=0.23.14", default-features = false, features = ["png", "jpeg"] }
nalgebra = "=0.32.6"
serde = { version = "=1.0.229", features = ["derive"] }
thiserror = "=1.0.69"
anyhow = "=1.0.104"
log = "=0.4.34"
wasm-bindgen = { version = "=0.2.129", features = ["serde-serialize"] }
js-sys = "=0.3.106"
wasm-bindgen-futures = "=0.4.79"
