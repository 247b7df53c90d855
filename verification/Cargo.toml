[package]
name = "classic_menu"
version = "0.1.0"
edition = "2021"
publish = false

[dependencies]
fuzzy-matcher = "*"
freedesktop-desktop-entry = "*"
current_locale = "*"
notify = "*"
log = "*"
simple_logger = "*"
