[package]
name = "crawler_template"
version = "0.1.0"
edition = "2021"
publish = false

[dependencies]
scraper = "*"
ego-tree = "*"
regex = "*"
serde = { version = "*", features = ["derive"] }
serde_yaml = "*"
reqwest = { version = "*", features = ["blocking"] }
