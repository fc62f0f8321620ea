[package]
name = "bib_unifier"
version = "0.1.0"
edition = "2021"
publish = false

[dependencies]
strsim = "*"
biblatex = "*"
bunt = "*"
read_input = "*"
clap = { version = "*", features = ["derive"] }
anyhow = "*"
