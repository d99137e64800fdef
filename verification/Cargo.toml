[package]
name = "gosam_olp"
version = "0.1.0"
edition = "2021"
publish = false

[dependencies]
indexmap = "*"
libloading = "*"
self_cell = "*"
fastrand = "*"
