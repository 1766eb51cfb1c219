[package]
name = "pfp_profile"
version = "0.1.0"
edition = "2021"
publish = false

[dependencies]
rustc-hash = "=2.1.3"
rayon = "=1.12.0"
clap = { version = "=4.6.7", features = ["derive"] }
indicatif = "=0.18.6"
niffler = "=3.0.1"
seq_io = "=0.3.4"
serde_json = "=1.0.154"
walkdir = "=2.5.0"
