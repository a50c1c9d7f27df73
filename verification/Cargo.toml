[package]
name = "novel_lang"
version = "0.1.0"
edition = "2021"
publish = false

[dependencies]
clap = { version = "4", features = ["derive"] }
hypertext = "*"
tokio = { version = "1", features = ["macros", "rt-multi-thread", "io-std", "io-util"] }
tower-lsp = "0.20"

[dev-dependencies]
nom = "8"
