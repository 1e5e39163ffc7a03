[package]
name = "cavegen"
version = "0.1.0"
edition = "2021"
publish = false

[dependencies]
rltk = { version = "=0.8.7", features = ["serde"] }
specs = { version = "=0.16.1", features = ["serde"] }
specs-derive = "=0.4.1"
serde = { version = "=1.0.229", features = ["derive"] }
