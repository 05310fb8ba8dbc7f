[package]
name = "stalagmite"
version = "0.1.0"
edition = "2021"
publish = false

[dependencies]
anyhow = "*"
async-stream = "*"
axum = "*"
bytes = "*"
camino = "*"
chrono = "*"
clap = { version = "*", features = ["derive"] }
futures = "*"
ignore = "*"
include_dir = "*"
lightningcss = "1.0.0-alpha.72"
liquid = "=0.25.1"
liquid-core = "=0.25.1"
memmap2 = "*"
notify = "*"
notify-debouncer-mini = "*"
railwind = "*"
rayon = "*"
regex = "*"
rusqlite = "*"
seahash = "*"
serde = { version = "*", features = ["derive"] }
serde_yaml = "*"
tempfile = "*"
thiserror = "*"
tokio = { version = "*", features = ["full"] }
tokio-rusqlite = "*"
tower-http = { version = "*", features = ["fs"] }
