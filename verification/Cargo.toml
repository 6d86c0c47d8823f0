[package]
name = "lagent"
version = "0.1.0"
edition = "2021"
publish = false

[dependencies]
anyhow = "1"
clap = { version = "4", features = ["derive"] }
clap_complete = "4"
owo-colors = "4"
plist = "1"
sha2 = "0.10"
