[package]
name = "alan_von_palladium"
version = "0.1.1"
edition = "2021"
publish = false

[dependencies]
thiserror = "=1.0.69"
