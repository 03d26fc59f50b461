[package]
name = "rostdown"
version = "0.1.1"
edition = "2021"
publish = false
