[package]
name = "offset_explorer"
version = "3.0.3"
edition = "2021"
publish = false

[dependencies]
anyhow = "1"
apache-avro = "0.16"
base64 = "0.21"
byteorder = "1"
chrono = "0.4"
hex = "0.4"
quick-xml = "0.31"
rand = "0.8"
rdkafka = "0.36"
reqwest = { version = "0.11", default-features = false, features = ["json"] }
serde = { version = "1", features = ["derive"] }
serde_json = "1"
sha1 = "0.10"
tokio = { version = "1", features = ["full"] }
tracing = "0.1"
tracing-subscriber = "0.3"
