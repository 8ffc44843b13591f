[package]
name = "session_store"
version = "0.1.0"
edition = "2021"
publish = false

[dependencies]
serde_json = "*"
home = "*"
notify = "*"
notify-debouncer-mini = "*"
