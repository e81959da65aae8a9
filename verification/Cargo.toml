[package]
name = "rustalizer"
version = "0.1.0"
edition = "2021"
publish = false

[dependencies]
anyhow = "1"
cairo-rs = "0.9"
cpal = "0.13"
crossterm = "0.17"
gdk = "0.13"
gio = "0.9"
glib = "0.10"
gtk = "0.9"
log = "0.4"
simplelog = "0.8"
structopt = "0.3"
tui = { version = "0.12", default-features = false, features = ["crossterm"] }
