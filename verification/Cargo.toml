[package]
name = "midiosch"
version = "0.1.0"
edition = "2021"
publish = false

[dependencies]
clap = { version = "3.2", default-features = false, features = ["std"] }
crossbeam-channel = "0.5"
crossterm = "0.25"
midir = "*"
nannou_osc = "*"
tui = "0.19"
