[package]
name = "atxpkg"
version = "0.1.0"
edition = "2021"
publish = false

[dependencies]
anyhow = "1"
clap = { version = "4", features = ["derive"] }
filetime = "0.2"
hex = "0.4"
indicatif = "0.17"
itertools = "0.13"
log = "0.4"
log-panics = "2"
md-5 = "0.10"
reqwest = { version = "0.12", default-features = false, features = ["blocking", "rustls-tls"] }
scoped_threadpool = "0.1"
serde = { version = "1", features = ["derive"] }
serde_json = "1"
simplelog = "0.12"
tempfile = "3"
time = { version = "0.3", features = ["macros", "local-offset"] }
walkdir = "2"
zip = { version = "2", default-features = false, features = ["deflate", "time"] }
