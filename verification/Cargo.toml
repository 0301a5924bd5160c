[package]
name = "super_copier"
version = "0.1.0"
edition = "2021"
publish = false

[dependencies]
blake3 = "=1.8.7"
chrono = "=0.4.45"
crossbeam-channel = "=0.5.17"
eframe = { version = "=0.37.0", default-features = false, features = ["glow", "default_fonts", "x11"] }
filetime = "=0.2.29"
gethostname = "=1.1.0"
libc = "=0.2.191"
notify-rust = "=4.18.2"
rayon = "=1.12.0"
rfd = { version = "=0.17.2", default-features = false, features = ["xdg-portal"] }
serde = { version = "=1.0.229", features = ["derive"] }
serde_json = "=1.0.154"
socket2 = { version = "=0.6.5", features = ["all"] }
trash = "=5.2.9"
uuid = { version = "=1.29.0", features = ["v4"] }
walkdir = "=2.5.0"
windows-sys = { version = "=0.59.0", features = ["Win32_Foundation", "Win32_Storage_FileSystem", "Win32_System_Registry", "Win32_System_Threading", "Win32_UI_Shell"] }
zip = { version = "=9.2.2", default-features = false, features = ["deflate"] }
