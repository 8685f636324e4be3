[package]
name = "i18n-pseudo"
version = "0.1.0"
edition = "2021"
publish = false

[dependencies]
clap = { version = "4", features = ["derive"] }
thiserror = "2"
indexmap = "2"

[dev-dependencies]
regex = "1"
