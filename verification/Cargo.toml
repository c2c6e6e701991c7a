[package]
name = "self_update"
version = "0.1.0"
edition = "2021"
publish = false

[dependencies]
aws-config = { version = "1", features = ["behavior-version-latest"] }
aws-sdk-s3 = { version = "1", features = ["behavior-version-latest"] }
regex = "1"
semver = "1"
tokio = { version = "1", features = ["rt-multi-thread"] }
zipsign-api = "0.1"
