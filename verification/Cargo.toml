[package]
name = "fantasy_realms_ai"
version = "0.1.0"
edition = "2021"
publish = false

[dependencies]
fantasy_realms_unofficial_api = "*"
rand = "0.8"
