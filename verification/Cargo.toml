[package]
name = "cyclemetrics"
version = "0.1.0"
edition = "2021"
publish = false

[dependencies]
anyhow = "1"
chrono = "0.4"
clap = { version = "4", features = ["derive"] }
crossterm = "0.28"
geo = "0.30"
glob = "0.3"
gpx = "0.10"
ratatui = "0.29"
time = "0.3"
