[package]
name = "ra_vfs"
version = "0.1.0"
edition = "2021"
publish = false

[dependencies]
crossbeam-channel = "0.5"
jod-thread = "0.1"
log = "0.4"
notify = "4"
walkdir = "2"
