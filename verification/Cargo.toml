[package]
name = "bridge_probes"
version = "0.1.0"
edition = "2021"
publish = false

[dependencies]
alacritty_terminal = "=0.26.0"
avt = "=0.17.0"
base64 = "=0.22.1"
libc = "=0.2.191"
portable-pty = "=0.9.0"
serde = { version = "=1.0.229", features = ["derive"] }
serde_json = "=1.0.154"
tokio = { version = "=1.54.1", features = ["net", "io-util", "rt", "time"] }
uuid = { version = "=1.29.0", features = ["v4"] }
windows-sys = { version = "=0.61.2", features = ["Win32_Foundation", "Win32_Security", "Win32_System_Diagnostics_ToolHelp", "Win32_System_JobObjects", "Win32_System_Performance", "Win32_System_ProcessStatus", "Win32_System_Threading"] }
