[package]
name = "evaluation_domain"
version = "0.1.0"
edition = "2021"
publish = false

[dependencies]
blstrs = "=0.6.2"
pairing = "=0.22.0"
rayon = "=1.12.0"
serde = { version = "1", features = ["derive"] }

[dev-dependencies]
rand = { version = "=0.8.8", features = ["small_rng"] }
