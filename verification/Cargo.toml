[package]
name = "bicep_review"
version = "0.1.0"
edition = "2021"
publish = false

[dependencies]
base64 = "*"
clap = { version = "*", features = ["derive"] }
dotenv = "*"
prettytable-rs = "*"
reqwest = { version = "*", default-features = false, features = ["json"] }
serde = { version = "*", features = ["derive"] }
serde_json = "*"
textwrap = "*"
tokio = { version = "*", features = ["rt", "macros"] }
urlencoding = "*"
