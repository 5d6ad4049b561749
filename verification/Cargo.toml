[package]
name = "treetable"
version = "0.1.0"
edition = "2021"
publish = false

[dependencies]
sexp = "*"
unicode-width = "0.1"
structopt = "0.3"
paw = "1.0"
termion = "1.5"
tui = "0.9"
