[package]
name = "wl_screenrec"
version = "0.1.0"
edition = "2021"
publish = false

[dependencies]
anyhow = "*"
clap = { version = "*", features = ["derive"] }
drm = "*"
ffmpeg-next = "*"
ffmpeg-sys-next = "*"
human-size = "*"
libc = "*"
log = "*"
mio = { version = "*", features = ["os-poll", "os-ext"] }
signal-hook = "*"
signal-hook-mio = { version = "*", features = ["support-v1_0"] }
simplelog = "*"
thiserror = "*"
wayland-client = "*"
wayland-protocols = { version = "*", features = ["client", "unstable"] }
wayland-protocols-wlr = { version = "*", features = ["client"] }
