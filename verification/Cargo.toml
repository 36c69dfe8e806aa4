[package]
name = "dragshot"
version = "0.1.0"
edition = "2021"
publish = false

[dependencies]
fs_extra = "=1.3.0"
gif = "=0.13.3"
image = { version = "=0.25.10", default-features = false, features = ["png"] }
rdev = "=0.5.3"
windows = { version = "=0.58.0", features = ["Win32_Foundation", "Win32_UI_WindowsAndMessaging"] }
xcap = "=0.9.8"
