[package]
name = "crud_backend"
version = "0.1.0"
edition = "2021"
publish = false

[dependencies]
candid = "0.10"
ic-cdk = "*"
serde = { version = "1", features = ["derive"] }
