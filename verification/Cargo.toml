[package]
name = "conways_game_of_life"
version = "0.1.0"
edition = "2021"
publish = false

[dependencies]
line_drawing = "=1.0.1"
pixels = { version = "=0.11.0", default-features = false }
winit = "=0.27.5"
winit_input_helper = "=0.13.0"
