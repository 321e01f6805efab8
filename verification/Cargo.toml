[package]
name = "dsh_shell"
version = "0.4.0"
edition = "2021"
publish = false

[dependencies]
base64 = "0.22"
getrandom = "0.2"
rfd = { version = "0.15", default-features = false, features = ["xdg-portal", "async-std"] }
serde = { version = "1", features = ["derive"] }
serde_json = "1"
sha2 = "0.11"
ureq = "2"
windows = { version = "0.58", features = ["Foundation", "Media_Devices", "Media_SpeechRecognition", "Win32_System_Com"] }
windows-sys = { version = "0.59", features = ["Win32_Foundation", "Win32_Security", "Win32_System_JobObjects"] }
