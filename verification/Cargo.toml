[package]
name = "shaw-oc-stats"
version = "0.1.0"
edition = "2021"
publish = false

[dependencies]
chrono = "0.4"
nucleo-matcher = "*"
unicode-width = "*"
serde = { version = "1", features = ["derive"] }
serde_json = "1"
rusqlite = { version = "*", features = ["bundled"] }
clap = { version = "4", features = ["derive"] }
clap_complete = "4"
color-eyre = "*"
ratatui = "*"
image = { version = "*", default-features = false, features = ["png"] }
reqwest = { version = "*", default-features = false, features = ["json", "rustls-tls"] }
tokio = { version = "1", features = ["macros", "rt-multi-thread"] }
