[package]
name = "umya_spreadsheet"
version = "0.1.0"
edition = "2021"
publish = false

[dependencies]
quick-xml = "0.37"
serde = { version = "1", features = ["derive"] }
md-5 = "0.10"
