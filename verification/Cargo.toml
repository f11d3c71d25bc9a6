[package]
name = "mnemo_engine"
version = "0.1.0"
edition = "2021"
publish = false

[dependencies]
typst = "0.13"
typst-ide = "0.13"
typst-svg = "0.13"
typst-syntax = "0.13"
flate2 = "1"
tar = "0.4"
