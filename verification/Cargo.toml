[package]
name = "rusty_laby"
version = "0.1.0"
edition = "2021"
publish = false

[dependencies]
byteorder = "1"
piston_window = "*"
rand = "0.9"
serde_json = "1"
