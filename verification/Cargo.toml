[package]
name = "img_process"
version = "0.1.0"
edition = "2021"
publish = false

[dependencies]
failure = "0.1"
gdk-pixbuf = "0.8"
gio = "0.8"
glib = "0.9"
gtk = "0.8"
ndarray = { version = "0.13", features = ["rayon"] }
num-complex = "0.2"
ocl = "0.19"
once_cell = "1"
opencv = "*"
rand = "0.7"
rand_distr = "0.2"
rayon = "1"
