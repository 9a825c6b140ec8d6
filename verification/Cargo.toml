[package]
name = "namada_adapter"
version = "0.1.0"
edition = "2021"
publish = false

[dependencies]
prost = "=0.13.5"
prost-types = "=0.13.5"
ics23 = "=0.12.0"
