[package]
name = "tcli"
version = "0.1.0"
edition = "2021"
publish = false

[dependencies]
async-compression = { version = "0.4", features = ["futures-io", "gzip"] }
async-trait = "0.1"
chrono = { version = "0.4", features = ["serde"] }
clap = { version = "4", features = ["derive"] }
colored = "2"
directories = "5"
futures = "0.3"
futures-util = "0.3"
log = "0.4"
md-5 = "0.10"
once_cell = "1"
petgraph = { version = "0.6", features = ["serde-1"] }
reqwest = { version = "0.11", default-features = false, features = ["rustls-tls", "stream", "json"] }
serde = { version = "1", features = ["derive"] }
serde_json = "1"
steamlocate = "2"
sysinfo = "0.29"
thiserror = "1"
tokio = { version = "1", features = ["full"] }
toml = "0.8"
walkdir = "2"
wildmatch = "2"
winreg = "0.52"
zip = { version = "0.6", default-features = false, features = ["deflate"] }
