[package]
name = "game2048"
version = "0.1.0"
edition = "2021"
publish = false

[dependencies]
ndarray = "0.15"
rand = "0.7"
float-ord = "0.2"
enumflags2 = "0.6"
derive_builder = "0.9"
futures = "0.3"
winit = "0.24"
