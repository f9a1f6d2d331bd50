[package]
name = "sortify"
version = "0.1.0"
edition = "2021"
publish = false

[dependencies]
terminal_size = "=0.4.4"
rspotify = { version = "=0.16.1", default-features = false, features = ["client-ureq", "ureq-rustls-tls", "cli"] }
ureq = "=3.4.2"
rodio = "=0.22.2"
rascii_art = "=0.4.5"
image = "=0.24.9"
text_io = "=0.1.13"
clearscreen = "=5.0.0"
flexi_logger = "=0.31.10"
log = "=0.4.34"
