[package]
name = "debuzzy"
version = "0.1.0"
edition = "2021"

[dependencies]
rayon = "=1.12.0"
realfft = "=3.5.0"
rustfft = "=6.4.1"

[dev-dependencies]
regex = "*"
