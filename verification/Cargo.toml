[package]
name = "iv"
version = "0.1.0"
edition = "2021"
publish = false

[dependencies]
urlencoding = "2"
actix-files = "0.6"
actix-web = "4"
clap = { version = "4", features = ["derive"] }
fern = { version = "*", features = ["colored"] }
chrono = "0.4"
lazy_static = "1"
log = "0.4"
maud = "*"
mime = "0.3"
opener = "*"
