[package]
name = "teamy-robocopy"
version = "0.1.0"
edition = "2021"
publish = false

[dependencies]
arbitrary = { version = "1", features = ["derive"] }
chrono = "0.4"
clap = { version = "4", features = ["derive"] }
color-eyre = "0.6"
eyre = "0.6"
teamy-windows = "*"
tracing = "0.1"
tracing-subscriber = { version = "0.3", features = ["env-filter", "json"] }
uom = { version = "*", features = ["usize"] }
