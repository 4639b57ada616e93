[package]
name = "win_recorder"
version = "0.1.0"
edition = "2021"
publish = false

[dependencies]
parking_lot = "0.12"
pyo3 = { version = "0.22", features = ["abi3-py38", "extension-module"] }
windows = { version = "0.58", features = [
    "Win32_Foundation",
    "Win32_Graphics_Direct3D",
    "Win32_Graphics_Direct3D11",
    "Win32_Graphics_Dxgi",
    "Win32_Graphics_Dxgi_Common",
    "Win32_Graphics_Gdi",
    "Win32_Media_MediaFoundation",
    "Win32_System_Com",
    "Win32_System_Com_StructuredStorage",
    "Win32_System_SystemInformation",
] }
