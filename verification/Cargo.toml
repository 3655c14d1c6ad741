[package]
name = "hostab"
version = "0.1.0"
edition = "2021"
publish = false

[dependencies]
regex = "=1.13.1"
axum = "=0.8.9"
chrono = "=0.4.45"
clap = { version = "=4.6.7", features = ["derive", "env"] }
clap_complete = "=4.6.11"
fs4 = "=1.1.0"
hickory-resolver = "=0.24.4"
libc = "=0.2.191"
serde = { version = "=1.0.229", features = ["derive"] }
serde_json = "=1.0.154"
tabled = "=0.22.0"
tempfile = "=3.27.0"
tokio = { version = "=1.54.1", features = ["rt-multi-thread", "net", "macros", "sync"] }
tower-http = { version = "=0.6.11", features = ["cors"] }
ureq = "=3.5.1"
utoipa = { version = "=5.5.0", features = ["axum_extras"] }
utoipa-swagger-ui = { version = "=9.0.2", features = ["axum", "vendored"] }
