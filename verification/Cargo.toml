[package]
name = "spectral_collocation"
version = "0.1.0"
edition = "2021"
publish = false

[dependencies]
num-complex = "*"
plotpy = "*"
rand = "*"
russell_lab = "*"
russell_ode = "*"
russell_stat = "*"
