[package]
name = "hameln-publish"
version = "0.1.0"
edition = "2021"
publish = false

[dependencies]
epub-builder = "=0.8.3"
structopt = "=0.3.26"

[dev-dependencies]
zip = { version = "=6.0.0", default-features = false, features = ["deflate"] }
