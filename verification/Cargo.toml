[package]
name = "mike_dev_blog"
version = "0.1.0"
edition = "2021"
publish = false

[dependencies]
ammonia = "*"
html-escape = "*"
chrono = "*"
uuid = { version = "*", features = ["v4"] }
