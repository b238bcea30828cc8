[package]
name = "chevii"
version = "0.1.0"
edition = "2021"
publish = false

[dependencies]
chess = "3.2"
rayon = "1"
log = "0.4"
env_logger = "0.9"
structopt = "0.3"
cxx = "1"
rand = "0.8"
lazy_static = "1"
