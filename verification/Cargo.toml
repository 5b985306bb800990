[package]
name = "video_encoder"
version = "0.1.0"
edition = "2021"
publish = false

[dependencies]
anyhow = "=1.0.104"
image = { version = "=0.25.10", default-features = false, features = ["png"] }
raw-window-handle = "=0.6.2"
regex = "=1.13.1"
rfd = { version = "=0.14.1", default-features = false, features = ["tokio", "xdg-portal"] }
slint = { version = "=1.18.1", default-features = false, features = ["std", "compat-1-2"] }
tokio = { version = "=1.54.1", features = ["io-util", "macros", "process", "rt-multi-thread", "time"] }
which = "=7.0.3"
windows-sys = { version = "=0.59.0", features = ["Win32_Foundation", "Win32_System_Ole", "Win32_UI_Shell", "Win32_UI_WindowsAndMessaging"] }
