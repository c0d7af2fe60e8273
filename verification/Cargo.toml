[package]
name = "chubby_bunny"
version = "0.1.0"
edition = "2021"
publish = false

[dependencies]
nalgebra = "0.33"
itertools = "0.14"
dyn-clone = "1"
quick-xml = { version = "0.37", features = ["serialize"] }
serde = { version = "1", features = ["derive"] }
svgtypes = "0.15"
rand = { version = "0.9", features = ["small_rng"] }
wasm-bindgen = "0.2"
web-sys = { version = "0.3", features = ["console", "Window", "Performance"] }
serde-wasm-bindgen = "0.6"
