[package]
name = "migration_tools"
version = "0.1.0"
edition = "2021"
publish = false

[dependencies]
csv = "=1.4.0"
serde = { version = "=1.0.229", features = ["derive"] }
serde_json = "=1.0.151"
anyhow = "=1.0.104"
dialoguer = "=0.12.0"
indicatif = "=0.18.6"
firestore-db-and-auth = "=0.8.0"
futures = "*"
