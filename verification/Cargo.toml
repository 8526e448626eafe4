[package]
name = "quitz"
version = "0.1.0"
edition = "2021"
publish = false

[dependencies]
rand = "0.8"
mongodb = "2"
actix-web = "4"
actix-governor = "*"
dotenv = "0.15"
serde_json = "1"
