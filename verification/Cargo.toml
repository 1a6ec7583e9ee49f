[package]
name = "ecs_sim"
version = "0.1.0"
edition = "2021"
publish = false

[dependencies]
rand = "=0.9.5"
raylib = "=5.5.1"
