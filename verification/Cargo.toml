[package]
name = "eww"
version = "0.1.0"
edition = "2021"
publish = false

[dependencies]
anyhow = "1"
extend = "*"
gdk = "*"
grass = "*"
gtk = "*"
itertools = "0.10"
log = "0.4"
regex = "1"
