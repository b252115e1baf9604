[package]
name = "changelog_roller"
version = "0.1.0"
edition = "2021"
publish = false

[dependencies]
orgize = "0.10.0-alpha.1"
thiserror = "*"
clap = { version = "4", features = ["derive", "env"] }
clap-verbosity-flag = "*"
serde = { version = "1", features = ["derive"] }
toml = "*"
tracing = "0.1"
