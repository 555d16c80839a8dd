[package]
name = "block_byte"
version = "0.1.0"
edition = "2021"
publish = false

[dependencies]
ahash = "=0.8.12"
base64 = "=0.22.1"
bytemuck = { version = "=1.25.2", features = ["derive"] }
cgmath = "=0.18.0"
image = { version = "=0.25.10", default-features = false, features = ["png"] }
image-overlay = "=2.0.0"
lz4_flex = "=0.14.0"
num-integer = "=0.1.47"
palettevec = { version = "=0.4.0", features = ["serde"] }
parking_lot = "=0.12.5"
pollster = "=0.4.0"
priority-queue = "=2.7.0"
rand = "=0.9.5"
rand_xoshiro = "=0.7.0"
rayon = "=1.12.0"
renet = "=2.0.1"
renet_netcode = "=2.0.1"
ron = "=0.12.3"
roxmltree = "=0.21.2"
rusttype = "=0.9.3"
serde = { version = "=1.0.229", features = ["derive"] }
serde_cbor = "=0.11.2"
serde_json = "=1.0.154"
smallvec = "=1.16.4"
taffy = "=0.9.2"
texture_packer = "=0.30.0"
uuid = { version = "=1.29.0", features = ["v4", "serde"] }
walkdir = "=2.5.0"
wgpu = "=30.0.1"
winit = { version = "=0.30.13", default-features = false, features = ["x11", "rwh_06"] }
