[package]
name = "blockchain"
version = "0.1.0"
edition = "2021"
publish = false

[dependencies]
ring = "*"
data-encoding = "*"
uuid = { version = "*", features = ["v4"] }
serde = { version = "*", features = ["derive"] }
log = "*"
env_logger = "*"
reqwest = { version = "*", default-features = false, features = ["blocking", "json"] }
actix-web = { version = "*", default-features = false, features = ["macros"] }
