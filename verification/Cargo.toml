[package]
name = "rusty_nbuddies"
version = "0.1.0"
edition = "2021"
publish = false

[dependencies]
anyhow = "1"
bincode = "1"
config = "0.14"
crossbeam = "0.8"
plotters = { version = "0.3", default-features = false, features = ["bitmap_backend", "bitmap_encoder", "all_series", "all_elements", "ab_glyph"] }
rand = "0.8"
rayon = "1"
serde = { version = "1", features = ["derive"] }
statrs = "0.17"
