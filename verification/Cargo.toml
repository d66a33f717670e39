[package]
name = "mfj"
version = "0.1.0"
edition = "2021"
publish = false

[dependencies]
aho-corasick = "0.7"
anyhow = "1"
argh = "0.1"
chrono = "0.4"
ctrlc = "3"
dotenv = "0.15"
flate2 = "1"
humantime = "2"
log = "0.4"
serde = { version = "1", features = ["derive"] }
serde_json = "1"
simple_logger = "*"
thiserror = "1"
ureq = { version = "2", features = ["json"] }
