[package]
name = "telepipe"
version = "1.1.1"
edition = "2021"
publish = false

[dependencies]
byteorder = "1"
encoding = "0.2"
rand = "0.3"
clap = "2"
env_logger = "0.4"
log = "0.3"
resolve = "0.1"
rustc-serialize = "0.3"
toml = "0.2"
