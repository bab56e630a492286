[package]
name = "litejson"
version = "0.1.0"
edition = "2021"
publish = false

[dependencies]
actix-web = "*"
chrono = "*"
jsonwebtoken = "*"
md5 = "*"
serde = { version = "1", features = ["derive"] }
sqlite = "*"
toml = "*"
