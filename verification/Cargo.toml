[package]
name = "tauri_plugin_system"
version = "0.1.0"
edition = "2021"
publish = false

[dependencies]
libc = "=0.2.191"
serde = { version = "=1.0.229", features = ["derive"] }
serde_json = "=1.0.154"
tauri = { version = "=2.12.5", default-features = false }
windows = { version = "=0.62.2", features = [
    "Wdk_System_SystemInformation",
    "Wdk_System_SystemServices",
    "Win32_Foundation",
    "Win32_Graphics_Dxgi",
    "Win32_Graphics_Gdi",
    "Win32_NetworkManagement_IpHelper",
    "Win32_NetworkManagement_Ndis",
    "Win32_Networking_WinSock",
    "Win32_Security",
    "Win32_Storage_FileSystem",
    "Win32_System_IO",
    "Win32_System_Power",
    "Win32_System_Registry",
    "Win32_System_SystemInformation",
    "Win32_System_WindowsProgramming",
    "Win32_UI_HiDpi",
] }
