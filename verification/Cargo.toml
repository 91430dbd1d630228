[package]
name = "sauron_native"
version = "0.1.0"
edition = "2021"
publish = false

[dependencies]
sauron_vdom = "=0.26.0"
image = "=0.23.14"
titik = "=0.3.1"
gtk = "=0.8.1"
gdk-pixbuf = "=0.8.0"
