[package]
name = "wayland-proxy"
version = "0.1.0"
edition = "2021"
publish = false

[dependencies]
anyhow = "*"
bimap = "*"
clap = { version = "*", features = ["derive", "env", "string"] }
nix = { version = "*", features = ["socket", "uio", "inotify", "poll", "ptrace", "signal", "process"] }
tokio = { version = "1", features = ["net", "rt-multi-thread", "macros", "time", "io-util", "signal"] }
tracing = "0.1"
tracing-subscriber = { version = "0.3", features = ["env-filter"] }
wayland-backend = "*"
wayland-client = "*"
wayland-protocols = { version = "*", features = ["client", "staging", "unstable"] }
wayland-protocols-misc = { version = "*", features = ["client"] }
wayland-protocols-plasma = { version = "*", features = ["client"] }
wayland-protocols-wlr = { version = "*", features = ["client"] }
zbus = { version = "*", default-features = false, features = ["tokio"] }
