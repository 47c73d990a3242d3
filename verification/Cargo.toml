[package]
name = "celld_storage"
version = "0.1.0"
edition = "2021"
publish = false

[dependencies]
anyhow = "=1.0.104"
async-trait = "=0.1.92"
bytes = "=1.12.1"
chrono = "=0.4.45"
futures-util = "=0.3.34"
http = "=1.5.0"
object_store = { version = "0.14", features = ["aws", "azure", "gcp"] }
percent-encoding = "=2.3.2"
rusqlite = { version = "=0.41.1", features = ["bundled", "hooks", "limits", "serialize"] }
serde = { version = "=1.0.229", features = ["derive"] }
serde_json = "=1.0.154"
sqlite-vec = "*"
tokio = { version = "=1.54.1", features = ["rt", "sync", "macros", "time"] }
tracing = "=0.1.44"
ureq = "3"
