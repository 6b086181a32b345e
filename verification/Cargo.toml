[package]
name = "wcc"
version = "0.1.0"
edition = "2021"
publish = false

[dependencies]
anyhow = "1"
arboard = { version = "3", default-features = false }
base64 = "=0.22.1"
chrono = { version = "=0.4.45", features = ["serde"] }
clap = { version = "4", features = ["derive"] }
crossterm = "0.27"
dirs = "5"
filetime = "0.2"
flate2 = "=1.1.10"
jwalk = "0.8"
lz4_flex = "0.11"
prettyplease = "0.2"
proc-macro2 = { version = "=1.0.107", features = ["span-locations"] }
quote = "=1.0.47"
ratatui = "0.26"
rayon = "1"
regex = "=1.13.1"
serde = { version = "1", features = ["derive"] }
serde_json = "1"
signal-hook = "0.3"
similar = "=2.7.0"
syn = { version = "=2.0.119", features = ["full", "visit", "extra-traits"] }
tempfile = "3"
toml = "0.8"
url = "=2.5.8"
walkdir = "2"
zip = { version = "2", default-features = false, features = ["deflate"] }
