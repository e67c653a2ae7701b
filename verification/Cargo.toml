[package]
name = "nib"
version = "0.4.1"
edition = "2021"
publish = false

[dependencies]
ropey = "1"
unicode-segmentation = "1"
unicode-width = "0.2"
kdl = "6"
rustix = { version = "1", features = ["termios", "stdio"] }
vte = "0.15"
signal-hook = "0.3"
etcetera = "0.10"
clap = { version = "4", features = ["derive"] }
anyhow = "1"
