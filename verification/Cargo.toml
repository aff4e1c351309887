[package]
name = "disbatch"
version = "0.1.0"
edition = "2021"
publish = false

[dependencies]
anyhow = "1"
egui = "0.27"
portable-pty = "0.9"
regex = "1"
serde = { version = "1", features = ["derive"] }
serde_json = "1"
vt100 = "0.16"
winapi = { version = "0.3", features = ["handleapi", "libloaderapi", "processthreadsapi", "winnt"] }
