[package]
name = "nevc_mtr1_gui"
version = "0.1.0"
edition = "2021"
publish = false

[dependencies]
anyhow = "1"
reqwest = { version = "0.12", default-features = false, features = ["blocking", "json", "rustls-tls"] }
serde = { version = "1", features = ["derive"] }
serde_json = "1"
serialport = { version = "4", default-features = false }
tokio = { version = "1", features = ["rt"] }
zip = { version = "2", default-features = false, features = ["deflate"] }
