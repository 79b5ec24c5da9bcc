[package]
name = "voxel_dig"
version = "0.1.0"
edition = "2021"
publish = false

[dependencies]
fixedbitset = "*"
fast-surface-nets = "*"
