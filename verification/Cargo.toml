[package]
name = "bom_core"
version = "0.1.0"
edition = "2021"
publish = false

[dependencies]
sha2 = "*"
data-encoding = "*"
toml = "*"
serde = "*"
serde_derive = "*"
clap = "*"
