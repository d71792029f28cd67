[package]
name = "traj_viewer"
version = "0.1.0"
edition = "2021"
publish = false

[dependencies]
clap = { version = "*", features = ["derive"] }
linya = "*"
plotters = "*"
tokio = { version = "*", features = ["macros", "rt-multi-thread"] }
