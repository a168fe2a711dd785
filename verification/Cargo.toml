[package]
name = "drm_grabber"
version = "0.1.0"
edition = "2021"
publish = false

[dependencies]
clap = { version = "2", default-features = false }
drm = "0.9"
drm-ffi = "0.5"
drm-fourcc = "2"
flatbuffers = "23"
image = { version = "0.24", default-features = false, features = ["png"] }
libc = "0.2"
nix = "0.26"
once_cell = "1"
rayon = "1"
