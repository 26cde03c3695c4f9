[package]
name = "norbert"
version = "0.1.0"
edition = "2021"
publish = false

[dependencies]
anyhow = "1"
clap = { version = "4", features = ["derive"] }
embedded-hal = "1"
embedded-hal-async = "1"
indicatif = "0.17"
pico-de-gallo-hal = "0.6"
pico-de-gallo-lib = "0.6"
tokio = { version = "1", features = ["rt-multi-thread", "macros", "time", "signal"] }
