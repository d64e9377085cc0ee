[package]
name = "group_adapter"
version = "0.1.0"
edition = "2021"
publish = false

[dependencies]
subtle = "=2.6.1"
rand_core = "=0.6.4"
group = "=0.13.0"
ff = "=0.13.1"
num-traits = "=0.2.19"
ark-ff = "=0.3.0"
ark-std = "0.3"
