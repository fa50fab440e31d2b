[package]
name = "coppe"
version = "0.1.0"
edition = "2021"
publish = false

[dependencies]
shlex = "=1.3.0"
wasmer = "=3.3.0"
x11rb = "*"
parking_lot = "*"
env_logger = "*"
log = "*"
