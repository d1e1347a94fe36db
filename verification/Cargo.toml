[package]
name = "midden"
version = "0.1.0"
edition = "2021"
publish = false

[dependencies]
anyhow = "1"
axum = { version = "0.8", features = ["multipart"] }
axum-extra = { version = "*", features = ["cookie"] }
base64 = "0.22"
bytes = "1"
futures-util = "0.3"
headers = "0.4"
html-escape = "0.2"
image = { version = "0.25", default-features = false, features = ["gif", "jpeg", "png"] }
infer = "*"
object_store = { version = "*", default-features = false }
serde = { version = "1", features = ["derive"] }
serde_json = "1"
sha2 = "0.10"
syntect = { version = "5", default-features = false, features = ["default-fancy"] }
time = "0.3"
tokio = { version = "1", features = ["fs", "macros", "rt-multi-thread", "sync", "time"] }
tracing = "0.1"
url = "2"
