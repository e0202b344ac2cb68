[package]
name = "postgresql_rust"
version = "0.1.0"
edition = "2021"
publish = false

[dependencies]
bytes = "1"
tokio = { version = "1", features = ["full"] }
tokio-postgres = "0.7"
postgres-openssl = "0.5"
openssl = "0.10"
dotenv = "0.15"
