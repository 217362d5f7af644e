[package]
name = "etiles"
version = "0.1.0"
edition = "2021"
publish = false

[dependencies]
anyhow = "1"
bincode = "=2.0.1"
bitvec = "=1.1.1"
bytemuck = { version = "1", features = ["derive"] }
chrono = "0.4"
clap = { version = "4", features = ["derive"] }
ecoord = "=0.0.2-alpha.1"
eproj = "=0.0.2-alpha.1"
gltf = { version = "=1.4.1", default-features = false }
gltf-json = "=1.4.1"
nalgebra = "0.34"
palette = "0.7"
rayon = "1"
serde = { version = "1", features = ["derive"] }
serde_json = "1"
serde_repr = "0.1"
tar = "=0.4.46"
thiserror = "2"
tracing = "0.1"
tracing-subscriber = "0.3"
