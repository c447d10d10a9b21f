[package]
name = "cellang"
version = "0.1.0"
edition = "2021"
publish = false

[dependencies]
rustc_apfloat = "=0.1.3"
rand = "=0.8.8"
indexmap = "*"
anyhow = "*"
clap = { version = "*", features = ["derive"] }
serde = { version = "*", features = ["derive"] }
serde_json = "*"
rayon = "*"
cranelift-codegen = "=0.127.4"
cranelift-frontend = "=0.127.4"
cranelift-jit = "=0.127.4"
cranelift-module = "=0.127.4"
cranelift-native = "=0.127.4"
