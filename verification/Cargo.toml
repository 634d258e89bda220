[package]
name = "feed_rs"
version = "0.1.0"
edition = "2021"
publish = false

[dependencies]
md-5 = "=0.11.0"
actix-web = "=4.15.0"
serde = { version = "=1.0.229", features = ["derive"] }
dotenvy = "=0.15.7"
simplelog = "*"
reopen = "*"
