[package]
name = "app_blocker"
version = "0.1.0"
edition = "2021"
publish = false

[dependencies]
chrono = "=0.4.45"
serde = { version = "=1.0.229", features = ["derive"] }
serde_json = "=1.0.154"
egui = { version = "=0.29.1", default-features = false, features = ["default_fonts"] }
eframe = { version = "=0.29.1", default-features = false, features = ["default_fonts", "glow"] }
rfd = { version = "=0.15.4", default-features = false }
windows = { version = "0.58", features = ["Win32_Foundation", "Win32_Security", "Win32_Security_Authorization", "Win32_System_Com", "Win32_System_Diagnostics_ToolHelp", "Win32_System_Environment", "Win32_System_RemoteDesktop", "Win32_System_Threading", "Win32_System_Registry", "Win32_UI_WindowsAndMessaging", "Win32_UI_Shell"] }
