[package]
name = "pocket_relay_plugin"
version = "0.1.0"
edition = "2021"
publish = false

[dependencies]
env_logger = "0.10"
local-ip-address = "0.5"
log = "0.4"
native-windows-gui = { version = "1", default-features = false }
reqwest = { version = "0.11", default-features = false, features = ["rustls-tls"] }
tokio = { version = "1", features = ["full"] }
windows-sys = { version = "0.48", features = ["Win32_Foundation", "Win32_System_Console", "Win32_System_LibraryLoader", "Win32_System_SystemServices", "Win32_Networking_WinSock", "Win32_System_Memory"] }
