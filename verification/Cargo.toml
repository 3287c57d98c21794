[package]
name = "adf_utils"
version = "0.1.0"
edition = "2021"
publish = false

[dependencies]
regex = "1"
serde = { version = "1", features = ["derive"] }
confy = "0.6"
rfd = { version = "0.15", default-features = false, features = ["xdg-portal", "tokio"] }
