[package]
name = "linuxrpc"
version = "0.1.0"
edition = "2021"
publish = false

[dependencies]
rand = "0.9"
console = "*"
dialoguer = "*"
discord-rich-presence = "*"
