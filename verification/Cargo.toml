[package]
name = "tehda"
version = "0.1.0"
edition = "2021"
publish = false

[dependencies]
clap = { version = "4", features = ["derive"] }
gdk = "0.18"
gio = "0.18"
gtk = "0.18"
gtk-layer-shell = "0.8"
lazy_static = "1"
log = "0.4"
pretty_env_logger = "0.5"
serde = { version = "1", features = ["derive"] }
serde_yaml = "0.9"
subprocess = "0.2"
