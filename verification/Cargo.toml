[package]
name = "micro_agent"
version = "0.1.0"
edition = "2021"
publish = false

[dependencies]
uuid = { version = "=1.29.0", features = ["v4"] }
redb = "=3.1.3"
serde = { version = "=1.0.229", features = ["derive"] }
serde_json = "=1.0.154"
tokio = { version = "=1.54.1", features = ["rt-multi-thread", "macros", "sync", "time", "signal"] }
teloxide = "=0.17.0"
takecell = "=0.1.0"
anyhow = "=1.0.104"
thiserror = "=2.0.21"
log = "=0.4.35"
pretty_env_logger = "=0.5.0"
encoding_rs = "=0.8.44"
hf-hub = { version = "=0.5.0", default-features = false, features = ["ureq", "native-tls"] }
fastembed = { version = "=7.5.0", default-features = false, features = ["onnx", "ort-load-dynamic", "hf-hub-native-tls"] }
llama-cpp-2 = "=0.1.160"
