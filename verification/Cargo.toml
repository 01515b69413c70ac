[package]
name = "pingpong"
version = "0.1.0"
edition = "2021"
publish = false

[dependencies]
nix = { version = "*", features = ["sched", "process"] }
socket2 = { version = "*", features = ["all"] }
clap = { version = "4", features = ["derive"] }
monoio = "*"
local-sync = "*"
compio = { version = "*", features = ["runtime", "io", "net"] }
glommio = "*"
may = "*"
nio = "*"
tokio = { version = "1", features = ["io-util"] }
smol = "*"
futures-lite = "*"
tokio-uring = "*"
