[package]
name = "clowncar"
version = "0.1.0"
edition = "2021"
publish = false

[dependencies]
hashbrown = "*"
lolevel = "*"
parking_lot = "*"
