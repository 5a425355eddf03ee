[package]
name = "quickcsv"
version = "0.1.0"
edition = "2021"
publish = false

[dependencies]
csv = "=1.4.0"
tabled = { version = "=0.22.0", features = ["ansi"] }
