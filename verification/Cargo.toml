[package]
name = "geojson_map"
version = "0.1.0"
edition = "2021"

[dependencies]
geojson = "0.24"
plotters = { version = "0.3", default-features = false, features = ["svg_backend"] }
