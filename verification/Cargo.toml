[package]
name = "lexer"
version = "0.1.0"
edition = "2021"
publish = false

[dependencies]
anyhow = "1"
phf = { version = "0.11", features = ["macros"] }
thiserror = "1"
