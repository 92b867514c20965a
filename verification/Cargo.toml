[package]
name = "proto_json_validator"
version = "0.1.0"
edition = "2021"
publish = false

[dependencies]
clap = "4"
protobuf = "3"
protobuf-parse = "3"
serde_json = "1"
tokio = { version = "1", features = ["macros", "rt-multi-thread"] }
