[package]
name = "entangled_worlds"
version = "0.1.0"
edition = "2021"
publish = false

[dependencies]
shlex = "=1.3.0"
base64 = "=0.22.1"
smallvec = "=1.16.4"
rstar = "*"
