[package]
name = "digidl"
version = "0.1.0"
edition = "2021"
publish = false

[dependencies]
base64 = "*"
lopdf = "*"
svg2pdf = "*"
reqwest = { version = "*", default-features = false, features = ["cookies"] }
tokio = { version = "*", features = ["rt-multi-thread", "macros"] }
serde_urlencoded = "*"
regex = "*"
