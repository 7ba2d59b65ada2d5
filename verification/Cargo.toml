[package]
name = "ambit"
version = "0.1.0"
edition = "2021"
publish = false

[dependencies]
clap = "2"
dirs = "*"
hostname = "*"
patmatch = "*"
walkdir = "*"
