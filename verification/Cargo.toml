[package]
name = "remoterm"
version = "0.1.0"
edition = "2021"
publish = false

[dependencies]
failure = "0.1"
mio = "0.6"
openssl = "0.10"
pseudoterm = "*"
rand = "0.4"
sslhash = "*"
termion = "1"
