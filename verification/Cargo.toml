[package]
name = "hypr_clipboard"
version = "0.1.0"
edition = "2021"
publish = false

[dependencies]
anyhow = "=1.0.104"
ironrdp-cliprdr = "=0.9.0"
ironrdp-cliprdr-format = "=0.3.0"
libc = "=0.2.191"
tokio = { version = "=1.54.1", features = ["rt", "rt-multi-thread", "sync", "time", "macros"] }
tracing = "=0.1.44"
url = "=2.5.8"
wayland-client = "=0.31.15"
wayland-protocols-wlr = { version = "=0.3.12", features = ["client"] }
