[package]
name = "ziphopp"
version = "0.1.0"
edition = "2021"
publish = false

[dependencies]
zip = { version = "=4.6.1", default-features = false, features = ["deflate"] }
serde = { version = "=1.0.229", features = ["derive"] }
native-dialog = "=0.7.0"
