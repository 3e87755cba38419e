[package]
name = "p4est"
version = "0.1.0"
edition = "2021"
publish = false

[dependencies]
mpi = "0.8.2"
