[package]
name = "linkerd2_mock_dst"
version = "0.1.0"
edition = "2021"
publish = false

[dependencies]
serde_json = "1"
serde_yaml = "0.9"
tokio = { version = "1", features = ["full"] }
tonic = "*"
linkerd2-proxy-api = { version = "*", features = ["destination", "identity"] }
inotify = "*"
structopt = "0.3"
futures = "*"
tracing = "*"
tracing-subscriber = { version = "0.3", features = ["env-filter"] }
rustls-pemfile = "*"
