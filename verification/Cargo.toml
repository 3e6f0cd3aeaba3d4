[package]
name = "enigmatic"
version = "0.1.0"
edition = "2021"
publish = false

[dependencies]
clap = { version = "=4.6.7", features = ["derive"] }
clipboard = "=0.5.0"
ecies = { version = "=0.2.11", features = ["std"] }
home = "=0.5.12"
rand = "=0.8.8"
rand_core = { version = "=0.6.4", features = ["getrandom"] }
rpassword = "=7.5.4"
sha3 = "=0.10.9"
simplecrypt = "=1.0.2"
whoami = "=1.6.1"
