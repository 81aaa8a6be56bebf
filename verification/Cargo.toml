[package]
name = "umbra"
version = "0.1.0"
edition = "2021"
publish = false

[dependencies]
dirs = "5"
jwalk = "0.8"
open = "5"
png = "0.17"
rayon = "1"
serde = { version = "1", features = ["derive"] }
serde_json = "1"
windows = { version = "0.58", features = ["Win32_Foundation", "Win32_UI_Shell", "Win32_UI_WindowsAndMessaging"] }
windows-sys = { version = "0.59", features = ["Win32_Foundation", "Win32_UI_WindowsAndMessaging", "Win32_UI_Input_KeyboardAndMouse", "Win32_Graphics_Gdi", "Win32_UI_Shell", "Win32_System_Registry", "Win32_Storage_FileSystem"] }
