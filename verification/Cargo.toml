[package]
name = "tv-renamer"
version = "0.1.0"
edition = "2021"
publish = false

[dependencies]
chrono = "*"
gdk = "*"
gtk = "*"
quick-error = "*"
tvdb = "*"
