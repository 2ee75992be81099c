[package]
name = "ange_synthesizer"
version = "0.1.0"
edition = "2021"
publish = false

[dependencies]
cpal = "0.15"
crossterm = "0.28"
rand = "0.8"
