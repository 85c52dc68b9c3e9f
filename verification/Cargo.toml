[package]
name = "palmier"
version = "0.1.0"
edition = "2021"
publish = false

[dependencies]
serde = { version = "=1.0.229", features = ["derive"] }
serde_json = "=1.0.154"
uuid = { version = "=1.29.0", features = ["v4"] }
sha2 = "=0.10.9"
unicode-normalization = "=0.1.26"
dirs = "=7.0.0"
trash = "=5.2.9"
time = { version = "=0.3.55", features = ["formatting", "parsing"] }
half = "=2.7.1"
anyhow = "=1.0.104"
tokenizers = { version = "*", default-features = false, features = ["fancy-regex"] }
image = { version = "*", default-features = false, features = ["png", "jpeg"] }
reqwest = { version = "*", default-features = false, features = ["blocking", "json"] }
