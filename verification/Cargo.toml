[package]
name = "litebox_windows_userland"
version = "0.1.0"
edition = "2021"
publish = false

[dependencies]
iced-x86 = { version = "1.21", default-features = false, features = ["std", "decoder", "instr_info"] }
smoltcp = { version = "0.12", default-features = false, features = ["std", "medium-ip", "proto-ipv4", "socket-tcp", "socket-udp"] }
socket2 = "0.5"
pollster = "0.4"
wgpu = { version = "27", default-features = false, features = ["dx12", "wgsl", "std"] }
winit = { version = "0.30", default-features = false, features = ["x11", "rwh_06"] }
windows-sys = { version = "0.60", features = [
    "Win32_Foundation",
    "Win32_Security",
    "Win32_Storage_FileSystem",
    "Win32_System_Console",
    "Win32_System_Diagnostics_Debug",
    "Win32_System_IO",
    "Win32_System_Kernel",
    "Win32_System_LibraryLoader",
    "Win32_System_Memory",
    "Win32_System_Pipes",
    "Win32_System_ProcessStatus",
    "Win32_System_SystemServices",
    "Win32_System_Threading",
] }
