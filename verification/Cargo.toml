[package]
name = "openzone"
version = "0.1.0"
edition = "2021"
publish = false

[dependencies]
serde = { version = "1", features = ["derive"] }
serde_json = "1"
thiserror = "*"
directories = "*"
iced = { version = "*", default-features = false, features = ["tiny-skia"] }
