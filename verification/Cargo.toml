[package]
name = "skillctl"
version = "0.2.0"
edition = "2021"
publish = false

[dependencies]
camino = "1"
clap = { version = "4", features = ["derive"] }
crossterm = "*"
dirs = "*"
fs-err = "*"
gray_matter = "*"
ratatui = "*"
semver = "1"
serde = { version = "1", features = ["derive"] }
serde_json = "1"
sha2 = "0.10"
tempfile = "3"
thiserror = "*"
toml = "*"
tracing-subscriber = { version = "0.3", features = ["env-filter"] }
walkdir = "2"
which = "*"
