[package]
name = "bg_removal"
version = "0.1.0"
edition = "2021"
publish = false

[dependencies]
image = { version = "0.25", default-features = false, features = ["jpeg", "png"] }
imageproc = { version = "0.25", default-features = false }
reqwest = { version = "0.12", default-features = false, features = ["stream"] }
scraper = "*"
serde = { version = "1", features = ["derive"] }
serde_json = "1"
tokio = { version = "1", features = ["macros", "rt-multi-thread", "fs", "io-util"] }
futures = "0.3"
