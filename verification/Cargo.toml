[package]
name = "native_words"
version = "0.1.0"
edition = "2021"
publish = false

[dependencies]
rand = "=0.8.8"
takecell = "=0.1.1"
teloxide = { version = "=0.12.2", default-features = false, features = ["rustls"] }
