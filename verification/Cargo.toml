[package]
name = "todo_scan"
version = "0.1.0"
edition = "2021"
publish = false

[dependencies]
anyhow = "*"
colored = "*"
ctrlc = "*"
ignore = "*"
notify = "*"
notify-debouncer-mini = "*"
regex = "*"
serde = { version = "*", features = ["derive"] }
serde_json = "*"
