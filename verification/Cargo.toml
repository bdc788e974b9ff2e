[package]
name = "statisticalme"
version = "0.1.0"
edition = "2021"
publish = false

[dependencies]
chrono = "0.4"
chrono-tz = "*"
shell-words = "1"
unicode-normalization = "0.1"
cli-table = "*"
termcolor = "1"
psutil = "*"
dotenv = "0.15"
pyo3 = "*"
