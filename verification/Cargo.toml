[package]
name = "mark"
version = "0.1.0"
edition = "2021"
publish = false

[dependencies]
regex = "1"
clap = "2"
tokio = { version = "1", features = ["fs", "io-util", "sync", "rt-multi-thread", "macros"] }
serde = { version = "1", features = ["derive"] }
rocket = "0.5"
rocket_dyn_templates = { version = "*", features = ["handlebars"] }
