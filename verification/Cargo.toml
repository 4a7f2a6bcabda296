[package]
name = "udl_codegen"
version = "0.1.0"
edition = "2021"
publish = false

[dependencies]
convert_case = "*"
serde = { version = "1", features = ["derive"] }
serde_yaml = "0.9"
