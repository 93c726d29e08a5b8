[package]
name = "mdpdf"
version = "0.1.0"
edition = "2021"
publish = false

[dependencies]
lopdf = "*"
dirs = "*"
comrak = { version = "*", default-features = false }
syntect = { version = "*", default-features = false, features = ["default-fancy"] }
headless_chrome = "*"
tokio = { version = "*", features = ["rt-multi-thread"] }
clap = { version = "*", features = ["derive"] }
anyhow = "*"
url = "*"
serde = { version = "*", features = ["derive"] }
serde_json = "*"
