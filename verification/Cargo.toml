[package]
name = "geo_rasterize"
version = "0.1.0"
edition = "2021"
publish = false

[dependencies]
geo-traits = "*"
geo-types = "=0.7.20"
wkb = "=0.9.2"
