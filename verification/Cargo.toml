[package]
name = "fs_util"
version = "0.1.0"
edition = "2021"
publish = false

[dependencies]
anyhow = "=1.0.104"
deno_path_util = "=0.6.4"
fs3 = "=0.5.0"
log = "=0.4.34"
rand = "=0.8.8"
tokio = { version = "=1.54.1", features = ["rt", "time", "fs", "sync"] }
tokio-util = "=0.7.20"
url = "=2.5.8"
walkdir = "=2.5.0"
