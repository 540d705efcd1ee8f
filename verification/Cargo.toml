[package]
name = "balatui"
version = "0.1.0"
edition = "2021"
publish = false

[dependencies]
rand = "0.9"
flate2 = "1"
nucleo-matcher = "0.3"
serde = { version = "1", features = ["derive"] }
serde_json = "1"
log = "0.4"
clap = { version = "4", features = ["derive"] }
color-eyre = "0.6"
crossterm = "*"
ratatui = "*"
tui-logger = "*"
tokio = { version = "1", default-features = false, features = ["rt-multi-thread", "macros", "sync", "time"] }
reqwest = { version = "*", default-features = false, features = ["json"] }
zip = { version = "*", default-features = false, features = ["deflate"] }
tempfile = "3"
directories = "*"
platform-dirs = "*"
opener = "*"
notify = "*"
