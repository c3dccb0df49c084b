[package]
name = "nya"
version = "0.1.0"
edition = "2021"
publish = false

[dependencies]
url = "2"
pgp = "*"
tokio = { version = "1", features = ["macros", "rt-multi-thread", "fs", "io-util"] }
reqwest = { version = "0.12", default-features = false, features = ["stream", "rustls-tls"] }
futures = "0.3"
clap = { version = "4", features = ["derive"] }
sha2 = "0.10"

[dev-dependencies]
nom = "8"
rand = "0.8"
