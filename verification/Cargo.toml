[package]
name = "rootftp"
version = "0.1.0"
edition = "2021"
publish = false

[dependencies]
home = "=0.5.12"
directories = "=6.0.0"
serde = { version = "1", features = ["derive"] }
serde_json = "=1.0.154"
clap = { version = "=4.6.7", features = ["derive"] }
tokio = { version = "=1.54.1", features = ["macros", "rt", "rt-multi-thread", "signal", "time", "fs"] }
libunftp = "=0.20.3"
unftp-sbe-fs = "=0.2.6"
unftp-sbe-rooter = "=0.2.1"
async-trait = "*"
inotify = "=0.11.5"
libloading = "=0.9.0"
libc = "*"
local-ip-address = "=0.6.13"
anyhow = "1"
reqwest = { version = "=0.12.28", default-features = false, features = ["json", "rustls-tls"] }
