[package]
name = "applet_drives"
version = "0.1.0"
edition = "2021"
publish = false

[dependencies]
procfs = "=0.18.0"
udev = "=0.9.3"
notify-rust = "*"
