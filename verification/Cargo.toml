[package]
name = "jpreprocess_dictionary_builder"
version = "0.1.0"
edition = "2021"
publish = false

[dependencies]
anyhow = "*"
bincode = "1"
csv = "*"
glob = "*"
lindera-core = "*"
serde = { version = "*", features = ["derive"] }
yada = "*"
