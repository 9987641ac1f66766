[package]
name = "astrocalc"
version = "0.1.0"
edition = "2021"
publish = false

[dependencies]
chrono = { version = "=0.4.45", features = ["serde"] }
chrono-tz = "=0.10.4"
sgp4 = "=2.4.0"
serde = { version = "=1.0.229", features = ["derive"] }
serde_json = "=1.0.154"
serde_yaml = "=0.9.34"
csv = "=1.4.0"
once_cell = "=1.21.4"
bincode = "=2.0.1"
astro = "=2.0.0"
egui = { version = "*", default-features = false, features = ["default_fonts"] }
eframe = { version = "*", default-features = false, features = ["glow", "default_fonts", "x11"] }
egui_plot = { version = "*", default-features = false }
egui_extras = { version = "*", default-features = false }
egui-async = "*"
diesel = { version = "2", default-features = false, features = ["sqlite"] }
diesel_migrations = "2"
dotenvy = "*"
tokio = { version = "1", default-features = false, features = ["rt-multi-thread", "macros"] }
ureq = { version = "*", default-features = false, features = ["rustls"] }
geojson = { version = "*", default-features = false }
tzf-rs = { version = "*", default-features = false }
julian_day_converter = "*"
sunrise-sunset-calculator = "*"
