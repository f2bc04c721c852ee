[package]
name = "tile_engine"
version = "0.1.0"
edition = "2021"
publish = false

[dependencies]
crossbeam = "*"
crossbeam-channel = "*"
glam = "*"
minifb = "*"
num_cpus = "*"
rand = "*"
rand_xoshiro = "*"
scoped_threadpool = "*"
