[package]
name = "postivene"
version = "0.1.0"
edition = "2021"
publish = false

[dependencies]
chrono = { version = "0.4", default-features = false, features = ["clock", "std"] }
serde_json = "1"
tokio = { version = "1", features = ["rt-multi-thread", "io-std", "io-util", "time", "sync"] }
qmetaobject = "0.2"
cpp = "0.5"
