[package]
name = "generic_accounting_system"
version = "1.5.0"
edition = "2021"
publish = false

[dependencies]
chrono = { version = "=0.4.45", default-features = false, features = ["clock", "std"] }
dirs = "=6.0.0"
zip = { version = "=2.6.1", default-features = false, features = ["deflate"] }
serde = { version = "=1.0.229", features = ["derive"] }
serde_json = "=1.0.154"
log = "=0.4.35"
sys-locale = "=0.3.2"
eframe = { version = "=0.37.0", default-features = false, features = ["default_fonts", "glow", "x11"] }
egui = "=0.37.0"
egui_extras = { version = "=0.37.0", default-features = false }
rusqlite = { version = "=0.41.1", features = ["bundled"] }
mysql = { version = "=28.0.4", default-features = false, features = ["minimal", "native-tls"] }
tiberius = { version = "=0.13.0", default-features = false, features = ["tds73", "native-tls", "chrono"] }
tokio = { version = "=1.54.1", features = ["rt", "net", "time"] }
tokio-util = { version = "=0.7.20", features = ["compat"] }
ureq = { version = "=3.5.1", default-features = false, features = ["native-tls"] }
