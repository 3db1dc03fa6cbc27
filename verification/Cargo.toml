[package]
name = "ellipse_fit"
version = "0.1.0"
edition = "2021"
publish = false

[dependencies]
lab = "*"
rand = "0.8"
tiny-skia = "*"
image = "*"
pico-args = "*"
read_color = "*"
rayon = "*"
