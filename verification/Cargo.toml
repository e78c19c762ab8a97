[package]
name = "tree"
version = "0.1.0"
edition = "2021"
publish = false

[dependencies]
url = "*"
uuid = { version = "*", features = ["v5"] }
titlecase = "*"
lingua = { version = "*", default-features = false, features = ["english", "spanish"] }
finalfusion = "*"
ndarray = "*"
sled = "*"
reqwest = { version = "*", default-features = false, features = ["blocking", "json"] }
scraper = "*"
serde = { version = "*", features = ["derive"] }
serde_json = "*"
