[package]
name = "quake_alert"
version = "0.1.0"
edition = "2021"
publish = false

[dependencies]
serde = { version = "*", features = ["derive"] }
ron = "*"
reqwest = { version = "*", default-features = false, features = ["blocking"] }
lettre = { version = "*", default-features = false, features = ["smtp-transport", "builder"] }
