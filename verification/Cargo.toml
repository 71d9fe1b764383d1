[package]
name = "tenutoc"
version = "2.0.0"
edition = "2021"
publish = false

[dependencies]
num-integer = "=0.1.47"
midly = "=0.5.3"
clap = { version = "=4.6.7", features = ["derive"] }
thiserror = "=1.0.69"
