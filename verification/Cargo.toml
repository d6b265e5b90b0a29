[package]
name = "sudoku_solver"
version = "0.1.0"
edition = "2021"
publish = false

[dependencies]
clap = { version = "3", features = ["derive"] }
itertools = "0.10"
rand = "0.8"
z3 = "0.10"
