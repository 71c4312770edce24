[package]
name = "note_store"
version = "0.1.0"
edition = "2021"
publish = false

[dependencies]
candid = "=0.10.39"
ic-cdk = "=0.18.7"
serde = "=1.0.229"
