[package]
name = "vellum"
version = "0.1.0"
edition = "2021"
publish = false

[dependencies]
petgraph = "=0.8.3"
clap = { version = "=4.6.7", features = ["derive"] }
codespan-reporting = "=0.13.1"
