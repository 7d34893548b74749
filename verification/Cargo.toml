[package]
name = "weighing"
version = "0.1.0"
edition = "2021"
publish = false

[dependencies]
parity-scale-codec = "=3.7.5"
sp-io = "=48.0.0"
structopt = "=0.3.26"
app_dirs = "=1.2.1"
