[package]
name = "arkime_setup"
version = "0.1.0"
edition = "2021"
publish = false

[dependencies]
anyhow = "1"
crossterm = "0.28"
nix = { version = "0.29", features = ["user", "fs"] }
ratatui = "0.29"
serde = { version = "1", features = ["derive"] }
serde_yml = "0.0.12"
similar = "2"
tui-input = "0.11"
tui-textarea = "0.7"
