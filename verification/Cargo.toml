[package]
name = "git-credentials"
version = "0.1.0"
edition = "2021"
publish = false

[dependencies]
bstr = { version = "1", default-features = false, features = ["std"] }
thiserror = "1"
