[package]
name = "full_logger"
version = "0.1.0"
edition = "2021"
publish = false

[dependencies]
chrono = "0.4"
curl = "0.4"
fltk = "1"
pretty_ini = "*"
toml = "*"
