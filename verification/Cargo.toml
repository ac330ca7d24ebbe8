[package]
name = "commitgen"
version = "0.1.0"
edition = "2021"
publish = false

[dependencies]
rand = "0.8"
chrono = "0.4"
clap = { version = "3", features = ["derive"] }
indicatif = "0.16"
