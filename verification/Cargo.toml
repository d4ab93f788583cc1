[package]
name = "gstshm2"
version = "0.1.0"
edition = "2021"
publish = false

[dependencies]
glib = "0.20"
gstreamer = "0.23"
gstreamer-app = { version = "0.23", features = ["v1_20"] }
gstreamer-base = "0.23"
libc = "0.2"
once_cell = "1"
windows-sys = { version = "0.59", features = ["Win32_Foundation", "Win32_Security", "Win32_Storage_FileSystem", "Win32_System_IO", "Win32_System_Memory"] }
