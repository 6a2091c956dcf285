[package]
name = "tetris"
version = "0.1.0"
edition = "2021"
publish = false

[dependencies]
minifb = "0.19"
rand = "0.8"
