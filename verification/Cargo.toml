[package]
name = "commonmeta"
version = "0.1.0"
edition = "2021"
publish = false

[dependencies]
clap = "4"
rand = "0.8"
regex = "1"
reqwest = { version = "0.12", default-features = false, features = ["blocking", "rustls-tls"] }
thiserror = "1"
url = "2"
zip = { version = "2", default-features = false, features = ["deflate"] }
