[package]
name = "fractal_plot"
version = "0.1.0"
edition = "2021"
publish = false

[dependencies]
bmp = "*"
num = "*"
