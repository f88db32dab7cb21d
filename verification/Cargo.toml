[package]
name = "sir_compare"
version = "0.1.0"
edition = "2021"
publish = false

[dependencies]
rand = "=0.8.8"
rand_pcg = "=0.3.1"
structopt = "=0.3.26"
glob = "=0.3.4"
flate2 = "=1.1.10"
lzma = "=0.2.2"
indicatif = "=0.17.11"
rayon = "=1.12.0"
average = "=0.13.1"
itoa = "=1.0.18"
dtoa = "=1.0.11"
