[package]
name = "oxisound"
version = "0.2.0"
edition = "2021"
publish = false

[dependencies]
cpal = "=0.17.3"
log = "=0.4.35"
