[package]
name = "cartero"
version = "0.1.0"
edition = "2021"
publish = false

[dependencies]
glib = "0.19"
gio = "0.19"
gtk4 = { version = "0.8", features = ["v4_12"] }
libadwaita = { version = "0.6", features = ["v1_4"] }
