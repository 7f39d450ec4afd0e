[package]
name = "cellular-automata"
version = "0.1.0"
edition = "2021"
publish = false

[dependencies]
bitvec = "1"
clap = { version = "4", features = ["derive"] }
euclid = "0.22"
imgref = "1"
loop9 = "0.1"
png = "0.17"
rand = "0.8"
thiserror = "1"
