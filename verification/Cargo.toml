[package]
name = "esp_webdav"
version = "0.1.0"
edition = "2021"
publish = false

[dependencies]
anyhow = "1"
dav-server = "*"
embedded-svc = "*"
esp-idf-hal = "*"
esp-idf-svc = "*"
esp-idf-sys = "*"
hyper = { version = "1", features = ["http1", "server"] }
hyper-util = { version = "0.1", features = ["tokio"] }
log = "0.4"
tokio = { version = "1", features = ["rt", "net", "io-util", "time", "fs"] }
