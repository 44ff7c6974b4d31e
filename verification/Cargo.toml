[package]
name = "adtune"
version = "1.0.0"
edition = "2021"
publish = false

[dependencies]
arc-swap = "=1.9.3"
flate2 = "=1.1.10"
libc = "=0.2.191"
pipewire = "0.9"
png = "=0.18.1"
rfd = { version = "=0.17.2", default-features = false, features = ["xdg-portal"] }
serde = { version = "=1.0.229", features = ["derive"] }
serde_json = "=1.0.154"
windows = { version = "0.61", features = ["Win32_Foundation", "Win32_Media_Audio", "Win32_Media_Audio_Apo", "Win32_System_Com", "Win32_System_Com_StructuredStorage", "Win32_UI_Shell", "Win32_UI_Shell_PropertiesSystem", "Win32_System_Threading", "Win32_System_Diagnostics_Debug", "Win32_Storage_FileSystem", "Win32_Devices_FunctionDiscovery", "Win32_System_Registry"] }
windows-core = "0.61"
winreg = "0.55"
zbus = "5"
