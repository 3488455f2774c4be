[package]
name = "kindle_screensaver"
version = "0.1.0"
edition = "2021"
publish = false

[dependencies]
bytes = "=1.12.1"
image = "=0.25.10"
rayon = "=1.12.0"
thiserror = "=2.0.21"
