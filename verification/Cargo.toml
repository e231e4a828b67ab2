[package]
name = "mcts"
version = "0.1.0"
edition = "2021"
publish = false

[dependencies]
fastrand = "2"
rand = "0.9"
argh = "0.1"
