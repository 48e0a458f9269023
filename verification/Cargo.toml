[package]
name = "p2pro_rs"
version = "0.1.0"
edition = "2021"
publish = false

[dependencies]
android_logger = "*"
anyhow = "=1.0.104"
base64 = "=0.22.1"
chrono = "=0.4.45"
clap = { version = "=4.6.7", features = ["derive"] }
curveipo = "=1.1.0"
dioxus = { version = "=0.7.10", default-features = false, features = ["macro", "html", "signals", "hooks", "launch", "document"] }
image = { version = "=0.25.10", default-features = false, features = ["png"] }
jni = "*"
libc = "=0.2.191"
log = "=0.4.35"
movavg = "=3.0.0"
oxideav-avi = "=0.0.10"
oxideav-core = "=0.1.42"
oxideav-huffyuv = "=0.0.3"
rfd = { version = "=0.16.1", default-features = false, features = ["xdg-portal", "tokio"] }
rusb = "=0.9.4"
tokio = { version = "=1.54.1", features = ["full"] }
v4l = "=0.14.0"
