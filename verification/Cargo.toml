[package]
name = "imaginer"
version = "0.1.0"
edition = "2021"
publish = false

[dependencies]
image = { version = "=0.25.10", default-features = false, features = ["png", "jpeg", "gif", "bmp", "webp", "tiff", "ico", "ff"] }
kamadak-exif = "=0.6.1"
webp = { version = "=0.3.1", default-features = false }
jxl-oxide = { version = "=0.12.6", default-features = false }
gamut-avif = "=2.0.0"
gamut-core = "=3.0.0"
rav1d = { version = "=1.1.0", default-features = false, features = ["bitdepth_8", "bitdepth_16"] }
resvg = "=0.49.0"
eframe = { version = "=0.37.0", default-features = false, features = ["glow", "x11"] }
arboard = "=3.7.0"
rfd = { version = "=0.17.2", default-features = false, features = ["xdg-portal"] }
trash = "=5.2.9"
thiserror = "=2.0.21"
log = "=0.4.35"
raw-window-handle = "=0.6.2"
windows-sys = { version = "=0.61.2", features = ["Win32_Foundation", "Win32_System_Console", "Win32_System_Pipes", "Win32_Storage_FileSystem", "Win32_Graphics_Dwm", "Win32_Security", "Win32_System_IO"] }
