[package]
name = "mclient"
version = "0.1.0"
edition = "2021"
publish = false

[dependencies]
azalea-chat = "=0.16.0"
azalea-language = "=0.16.0"
base64 = "=0.22.1"
flate2 = "=1.1.10"
mc-varint = "=0.1.1"
serde = "=1.0.229"
serde_json = "=1.0.154"
