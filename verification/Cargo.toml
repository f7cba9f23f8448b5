[package]
name = "ferriskey_sdk"
version = "0.1.0"
edition = "2021"
publish = false

[dependencies]
clap = "=4.6.7"
eyre = "=0.6.14"
hpx = { version = "=2.4.34", default-features = false, features = ["rustls-tls", "http1", "http2"] }
percent-encoding = "=2.3.2"
serde = "=1.0.229"
serde_json = "=1.0.154"
thiserror = "=2.0.21"
tokio = { version = "=1.54.1", features = ["macros", "rt-multi-thread"] }
tower = { version = "=0.5.3", features = ["util"] }
