[package]
name = "brush_incremental"
version = "0.1.0"
edition = "2021"
publish = false

[dependencies]
anyhow = "1"
async-fn-stream = "*"
bytemuck = "1"
clap = { version = "4", features = ["derive"] }
cxx = "1"
dashmap = "*"
eframe = { version = "*", default-features = false, features = ["wgpu", "x11"] }
egui = { version = "*", default-features = false }
env_logger = "*"
glam = "*"
image = { version = "0.25", default-features = false, features = ["png", "jpeg"] }
log = "0.4"
parking_lot = { version = "*", features = ["arc_lock", "send_guard"] }
rand = "*"
rand_distr = "*"
rayon = "1"
serde = { version = "1", features = ["derive"] }
serde_json = "1"
tokio = { version = "1", features = ["rt-multi-thread", "sync", "time", "fs", "macros"] }
tracing = "0.1"
tracing-subscriber = "*"
tracing-tracy = "*"
web-time = "1"
