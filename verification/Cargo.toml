[package]
name = "mpd_tui_core"
version = "0.1.0"
edition = "2021"
publish = false

[dependencies]
clap = { version = "4", features = ["derive"] }
color-eyre = "0.6"
crossterm = "*"
log = "0.4"
mpd_client = "*"
tokio = { version = "1", features = ["rt-multi-thread", "macros", "sync", "time"] }
