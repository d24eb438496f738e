[package]
name = "docquery"
version = "0.1.0"
edition = "2021"
publish = false

[dependencies]
regex = "=1.13.1"
lopdf = { version = "=0.46.0", default-features = false }
uuid = { version = "=1.29.0", features = ["v4"] }
image = { version = "=0.25.10", default-features = false, features = ["jpeg"] }
actix-web = "=4.18.1"
actix-files = "=0.7.3"
tokio = { version = "=1.54.1", features = ["rt", "macros"] }
serde = { version = "=1.0.229", features = ["derive"] }
rust-bert = "=0.23.0"
openai-api-rs = "=10.0.2"
redis = "=1.8.1"
ndarray = "=0.17.2"
rayon = "=1.12.0"
crossbeam = "=0.8.5"
lazy_static = "=1.5.1"
object-pool = "=0.6.0"
