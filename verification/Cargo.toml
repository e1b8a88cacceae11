[package]
name = "blame_index"
version = "0.1.0"
edition = "2021"
publish = false

[dependencies]
git2 = { version = "*", default-features = false }
rustc-serialize = "0.3"

[dev-dependencies]
tempfile = "*"
