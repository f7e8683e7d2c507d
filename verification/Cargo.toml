[package]
name = "pqcdump"
version = "0.1.0"
edition = "2021"
publish = false

[dependencies]
chrono = { version = "0.4", features = ["serde"] }
clap = { version = "4", features = ["derive"] }
etherparse = "*"
linked_hash_set = "*"
log = "0.4"
pcap = "2"
rust-embed = { version = "8", features = ["interpolate-folder-path", "include-exclude"] }
serde = { version = "1", features = ["derive"] }
serde_json = "1"
tera = "1"
