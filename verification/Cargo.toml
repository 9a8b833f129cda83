[package]
name = "task_maker"
version = "0.1.0"
edition = "2021"
publish = false

[dependencies]
uuid = { version = "*", features = ["v4"] }
blake2 = "*"
num_cpus = "*"
whoami = "*"
itertools = "*"
tempdir = "*"
nix = { version = "*", features = ["fs", "signal", "process"] }
ctrlc = "*"
termcolor = "*"
walkdir = "*"
structopt = "*"
serde = { version = "*", features = ["derive"] }
serde_json = "*"
log = "*"
lazy_static = "*"
boxfnonce = "*"
