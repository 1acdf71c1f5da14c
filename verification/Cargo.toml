[package]
name = "rustania"
version = "0.1.0"
edition = "2021"
publish = false

[dependencies]
discord-rich-presence = "*"
macroquad = "0.4"
rfd = "*"
rodio = "0.19"
zip = "*"
