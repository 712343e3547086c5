[package]
name = "rs_shapefile"
version = "0.1.0"
edition = "2021"
publish = false

[dependencies]
encoding_rs = "*"
quick-xml = "0.37"
serde_json = "*"
prost = "*"
thiserror = "*"
