[package]
name = "repoharbor"
version = "0.1.0"
edition = "2021"
publish = false

[dependencies]
dirs = "=7.0.0"
serde = { version = "=1.0.229", features = ["derive"] }
serde_json = "=1.0.154"
git2 = { version = "=0.21.0", default-features = false, features = ["cred"] }
rusqlite = { version = "=0.41.1", features = ["bundled"] }
which = "=8.0.6"
urlencoding = "=2.1.3"
reqwest = { version = "=0.12.28", default-features = false, features = ["json", "rustls-tls", "stream"] }
tokio = { version = "=1.54.1", features = ["rt", "rt-multi-thread", "time", "macros", "sync"] }
chrono = "=0.4.45"
futures-util = "=0.3.34"
walkdir = "=2.5.0"
globset = "=0.4.21"
png = "=0.17.16"
notify-debouncer-mini = "=0.7.0"
zbus = { version = "=5.19.0", features = ["tokio"] }
ksni = { version = "=0.3.7", features = ["blocking"] }
ashpd = { version = "=0.13.13", features = ["file_chooser"] }
