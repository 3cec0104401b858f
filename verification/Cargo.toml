[package]
name = "elucid"
version = "0.1.0"
edition = "2021"
publish = false

[dependencies]
ariadne = "*"
arrow = { version = "=60.1.0", default-features = false }
base64 = "=0.22.1"
blake3 = { version = "=1.8.7", default-features = false, features = ["std"] }
bytes = "=1.12.1"
chrono = { version = "=0.4.45", default-features = false, features = ["std"] }
futures = "=0.3.34"
object_store = { version = "=0.14.2", default-features = false, features = ["fs", "tokio"] }
parquet = { version = "=60.1.0", default-features = false, features = ["arrow", "async", "snap"] }
serde = { version = "=1.0.229", features = ["derive"] }
serde_json = { version = "=1.0.154", features = ["arbitrary_precision"] }
serde_yaml = "=0.9.34"
thiserror = "=2.0.21"
tokio = { version = "=1.54.1", features = ["fs", "io-util", "rt", "macros", "sync"] }
tokio-stream = { version = "=0.1.19", features = ["io-util"] }
url = "=2.5.8"
uuid = { version = "=1.29.0", features = ["v7"] }
