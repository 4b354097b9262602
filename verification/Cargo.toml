[package]
name = "elysium"
version = "0.1.0"
edition = "2021"
publish = false

[dependencies]
anyhow = "1"
base64 = "0.22"
boringtun = "0.7"
chrono = { version = "0.4", default-features = false, features = ["now"] }
dirs = "6"
iroh = { version = "1", default-features = false, features = ["tls-ring"] }
rand = "0.9"
serde = { version = "1", features = ["derive"] }
serde_json = "1"
tokio = { version = "1", features = ["rt-multi-thread", "macros", "sync", "time"] }
toml = { version = "0.9", default-features = false, features = ["display", "parse", "serde"] }
tracing = "0.1"
tracing-subscriber = { version = "0.3", default-features = false, features = ["env-filter", "fmt"] }
winapi = { version = "0.3", features = ["dpapi", "wincrypt", "winbase"] }
