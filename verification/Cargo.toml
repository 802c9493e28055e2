[package]
name = "seat_allocation"
version = "0.1.0"
edition = "2021"
publish = false

[dependencies]
argon2 = "0.5"
rand_core = { version = "0.6", features = ["getrandom"] }
rocket = { version = "0.5", features = ["json", "uuid"] }
rocket_dyn_templates = { version = "*", features = ["handlebars"] }
serde = { version = "1", features = ["derive"] }
serde_json = "1"
tokio = { version = "1", features = ["fs", "io-util", "rt", "time"] }
uuid = { version = "1", features = ["v4", "serde"] }
