[package]
name = "dnssec_walk"
version = "0.1.0"
edition = "2021"
publish = false

[dependencies]
clap = { version = "4", features = ["derive"] }
console = "0.15"
trust-dns-client = { version = "0.22", features = ["dnssec-ring"] }
