[package]
name = "plux_rs"
version = "0.1.0"
edition = "2021"
publish = false

[dependencies]
semver = "1"
rayon = "1"
serde = { version = "1", features = ["derive"] }
thiserror = "*"
walkdir = "2"
zip = { version = "*", default-features = false, features = ["deflate"] }
syn = { version = "2", features = ["full"] }
quote = "1"
proc-macro2 = "1"
