[package]
name = "fractal_explorer"
version = "0.1.0"
edition = "2021"
publish = false

[dependencies]
rayon = "*"
nalgebra = "*"
minifb = "*"
minifb_fonts = "*"
