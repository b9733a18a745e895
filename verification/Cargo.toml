[package]
name = "route_planner"
version = "0.1.0"
edition = "2021"
publish = false

[dependencies]
proconio = "0.3.6"
rand = { version = "0.7.3", features = ["small_rng"] }
