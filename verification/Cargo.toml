[package]
name = "snapbar"
version = "0.1.0"
edition = "2021"
publish = false

[dependencies]
arboard = { version = "3", default-features = false, features = ["image-data"] }
async-channel = "2"
clipboard-win = "5"
image = { version = "=0.25.10", default-features = false, features = ["png"] }
uiautomation = "*"
windows-capture = "*"
xcap = "*"

[dependencies.windows]
version = "0.62"
features = ["Win32_Foundation", "Win32_Graphics_Dwm", "Win32_Graphics_Gdi", "Win32_System_Com", "Win32_System_LibraryLoader", "Win32_System_Performance", "Win32_System_SystemInformation", "Win32_System_Threading", "Win32_UI_Accessibility", "Win32_UI_HiDpi", "Win32_UI_Shell", "Win32_UI_WindowsAndMessaging"]
