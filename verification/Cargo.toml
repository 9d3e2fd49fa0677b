[package]
name = "laserhelfer"
version = "0.1.0"
edition = "2021"
publish = false

[dependencies]
native-dialog = "=0.7.0"
