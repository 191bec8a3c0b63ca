[package]
name = "lottery_pool"
version = "0.1.0"
edition = "2021"
publish = false

[dependencies]
sha2 = "*"
rand = "*"
rand_chacha = "*"
subtle = "*"
serde = { version = "*", features = ["derive"] }
serde_json = "*"
