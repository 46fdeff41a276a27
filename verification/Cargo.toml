[package]
name = "upi"
version = "0.1.0"
edition = "2021"
publish = false

[dependencies]
shlex = "=1.3.0"
strsim = "=0.11.1"
os_info = "=3.15.0"
serde = { version = "=1.0.229", features = ["derive"] }
serde_json = "=1.0.154"
noyalib = "=0.0.58"
ureq = "=3.5.1"
url = "=2.5.8"
log = "=0.4.35"
env_logger = "=0.11.11"
clap = { version = "=4.6.7", features = ["derive"] }
indicatif = "=0.17.11"
rusqlite = { version = "*", features = ["bundled"] }
