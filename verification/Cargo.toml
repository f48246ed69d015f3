[package]
name = "chunked_upload"
version = "0.1.0"
edition = "2021"
publish = false

[dependencies]
aws-config = "=1.12.0"
aws-sdk-s3 = "=1.152.0"
aws-types = "=1.6.0"
indicatif = "=0.17.11"
tokio = { version = "=1.54.1", features = ["fs", "macros", "rt-multi-thread"] }
