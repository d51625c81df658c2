[package]
name = "mandelbrot"
version = "0.1.0"
edition = "2021"
publish = false

[dependencies]
bigdecimal = "*"
num = "*"
packed_simd = "*"
palette = "*"
rug = "*"
sdl2 = { version = "*", features = ["gfx"] }
threadpool = "*"
