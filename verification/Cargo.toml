[package]
name = "geopq"
version = "0.1.0"
edition = "2021"
publish = false

[dependencies]
arrow = { version = "=60.1.0", default-features = false }
clap = { version = "=4.6.7", features = ["derive"] }
eframe = { version = "=0.36.2", default-features = false, features = ["wgpu", "x11", "default_fonts"] }
egui-phosphor = "=0.14.0"
futures = { version = "=0.3.34", default-features = false, features = ["executor", "std"] }
geo = { version = "=0.33.1", default-features = false }
geo-types = "=0.7.20"
image = { version = "=0.25.10", default-features = false, features = ["png"] }
log = "=0.4.35"
rayon = "=1.12.0"
rfd = "=0.17.2"
rstar = "=0.14.0"
serde_json = { version = "=1.0.154", features = ["float_roundtrip"] }
