[package]
name = "to_rocq"
version = "0.1.0"
edition = "2021"
publish = false

[dependencies]
clap = { version = "4", features = ["derive"] }
eyre = "*"
openvm-circuit = "*"
openvm-circuit-primitives = "*"
openvm-rv32im-circuit = "*"
openvm-stark-backend = "*"
openvm-stark-sdk = "*"
p3-field = "*"
