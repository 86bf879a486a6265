[package]
name = "mandelbrot"
version = "0.1.0"
edition = "2021"
publish = false

[dependencies]
cxx = "1"
cxx-qt = "0.7"
cxx-qt-lib = "0.7"
