[package]
name = "aspeed_data_gen"
version = "0.1.0"
edition = "2021"
publish = false

[dependencies]
anyhow = "1"
prettyplease = "0.2"
serde = { version = "1", features = ["derive"] }
serde_yaml = "0.9"
syn = { version = "2", features = ["full"] }
