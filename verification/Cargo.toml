[package]
name = "wgsl_minifier"
version = "0.1.0"
edition = "2021"
publish = false

[dependencies]
unicode-ident = "1"
naga = { version = "25", features = ["wgsl-in", "wgsl-out"] }
clap = { version = "4", features = ["cargo"] }
codespan-reporting = "*"
