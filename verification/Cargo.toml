[package]
name = "local-transfer-core"
version = "0.1.0"
edition = "2021"
publish = false

[dependencies]
clap = { version = "4", features = ["derive"] }
directories = "6"
libc = "0.2"
mdns-sd = "*"
tempfile = "3"
uuid = { version = "1", features = ["v4"] }
windows-sys = { version = "*", features = ["Win32_Foundation", "Win32_System_Console"] }
