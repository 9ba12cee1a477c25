[package]
name = "excavation"
version = "0.1.0"
edition = "2021"
publish = false

[dependencies]
cogs-gamedev = "*"
itertools = "0.10"
macroquad = "0.3"
once_cell = "1"
quad-rand = { version = "0.2", features = ["rand"] }
rand = "0.8"
