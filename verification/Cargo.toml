[package]
name = "discord_irc_rs"
version = "0.1.0"
edition = "2021"
publish = false

[dependencies]
url = "2"
unicode-segmentation = "1"
