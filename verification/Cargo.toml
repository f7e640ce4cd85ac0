[package]
name = "moldyn"
version = "0.1.0"
edition = "2021"
publish = false

[dependencies]
arrayvec = "0.7"
cgmath = "0.18"
ctrlc = "3"
flate2 = "1"
rand = "0.8"
rand_distr = "0.4"
rayon = "1"
thread_local = "1"
