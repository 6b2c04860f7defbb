[package]
name = "warg"
version = "0.1.0"
edition = "2021"
publish = false

[dependencies]
digest = "0.10"
p256 = { version = "0.13", default-features = false, features = ["ecdsa", "std"] }
prost = "0.11"
sha2 = "0.10"
signature = "2"
thiserror = "1"
