[package]
name = "step_lb_solver"
version = "0.1.0"
edition = "2021"
publish = false

[dependencies]
rayon = "1"
rustc-hash = "2"
log = "0.4"
serde = { version = "1", features = ["derive"] }
ron = "*"
semver = "1"
web-time = "1"
ehttp = { version = "*", features = ["json"] }
egui = "*"
eframe = { version = "*", default-features = false, features = ["persistence"] }
allsorts = "*"
