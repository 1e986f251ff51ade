[package]
name = "flowstation"
version = "0.3.24"
edition = "2021"
publish = false

[dependencies]
uuid = { version = "1", features = ["v4"] }
md5 = "0.7"
serde = { version = "1", features = ["derive"] }
serde_json = "1"
toml = "0.8"
crossbeam-channel = "0.5"
tracing = "0.1"
git-version = "0.3"
const_format = "0.2"
reqwest = { version = "0.12", default-features = false, features = ["blocking", "json", "rustls-tls"] }
rustls = { version = "0.23", default-features = false, features = ["ring", "std"] }
rustls-pemfile = "2"
rustls-native-certs = "0.8"
quinn = { version = "0.11", default-features = false, features = ["runtime-tokio", "rustls-ring"] }
tokio = { version = "1", features = ["rt-multi-thread", "time", "macros"] }
