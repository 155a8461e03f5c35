[package]
name = "cellsheet"
version = "0.1.0"
edition = "2021"
publish = false

[dependencies]
evalexpr = "*"
seahash = "*"
crossbeam-channel = "*"
usvg = "*"
resvg = "*"
tiny-skia = "*"
