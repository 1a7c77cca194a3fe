[package]
name = "mdj_core"
version = "0.1.0"
edition = "2021"
publish = false

[dependencies]
bcrypt = "*"
chrono = "0.4"
icalendar = "*"
rand = "0.8"
uuid = { version = "1", features = ["v4"] }
