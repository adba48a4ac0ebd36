[package]
name = "teengine"
version = "0.1.0"
edition = "2021"
publish = false

[dependencies]
rusttype = "=0.9.3"
flate2 = "=1.1.10"
sha2 = "=0.10.9"
ttf-parser = "=0.15.2"
unicode-normalization = "=0.1.25"
image = { version = "=0.24.9", default-features = false, features = ["png"] }
