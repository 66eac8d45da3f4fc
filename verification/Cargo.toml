[package]
name = "vik"
version = "0.1.0"
edition = "2021"
publish = false

[dependencies]
clap = "2.33"
log = "0.4"
log4rs = "1"
termion = "1.5"
tui = { version = "0.14", default-features = false, features = ["termion"] }
