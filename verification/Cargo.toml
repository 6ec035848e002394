[package]
name = "cursormatrix"
version = "0.1.0"
edition = "2021"
publish = false

[dependencies]
colored = "*"
crossbeam = "*"
libc = "*"
term = "*"
termios = "*"
unicode-width = "*"
