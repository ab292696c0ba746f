[package]
name = "fractal_image"
version = "0.1.0"
edition = "2021"
publish = false

[dependencies]
rand = "*"
clap = { version = "*", features = ["derive"] }
indicatif = "*"
tracing = "*"
tracing-subscriber = { version = "*", features = ["env-filter"] }
anyhow = "*"
serde = { version = "*", features = ["derive"] }
serde_json = "*"
rayon = "*"
log = "*"
thiserror = "*"
image = { version = "*", default-features = false, features = ["png"] }
