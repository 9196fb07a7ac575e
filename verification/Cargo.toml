[package]
name = "h3accel"
version = "0.1.0"
edition = "2021"
publish = false

[dependencies]
geo-types = "=0.7.20"
h3ron = { version = "=0.18.0", features = ["roaring", "use-serde"] }
ndarray = "=0.17.2"
polars-core = { version = "=0.55.2", default-features = false }
serde = { version = "=1.0.229", features = ["derive"] }
static_aabb2d_index = "=2.1.0"
