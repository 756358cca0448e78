[package]
name = "rpack"
version = "0.1.0"
edition = "2021"
publish = false

[dependencies]
clap = "=2.34.0"
failure = "=0.1.8"
fixedbitset = "=0.5.7"
hex = "=0.4.3"
petgraph = "=0.8.3"
ring = "=0.17.14"
unicode-xid = "=0.2.6"
victoria-dom = "=0.1.2"
