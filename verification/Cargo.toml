[package]
name = "iosmic"
version = "0.1.0"
edition = "2021"
publish = false

[dependencies]
alsa = "*"
anyhow = "1"
byteorder = "1"
clap = { version = "4", features = ["derive"] }
idevice = { version = "*", features = ["usbmuxd"] }
libc = "0.2"
libpulse-binding = "*"
rubato = "*"
symphonia = { version = "*", features = ["aac"] }
tokio = { version = "1", features = ["io-util", "macros", "net", "rt-multi-thread", "signal", "sync", "time"] }
