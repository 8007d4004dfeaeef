[package]
name = "atom_terrain"
version = "0.1.0"
edition = "2021"
publish = false

[dependencies]
ndshape = "=0.3.0"
thiserror = "=1.0.69"

[dev-dependencies]
bitfield-struct = "*"
