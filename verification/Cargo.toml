[package]
name = "coral"
version = "0.1.8"
edition = "2021"
publish = false

[dependencies]
prost = "0.14"
prost-types = "0.14"
serde = { version = "1", features = ["derive"] }
