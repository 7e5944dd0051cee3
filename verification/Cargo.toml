[package]
name = "carl"
version = "0.1.0"
edition = "2021"
publish = false

[dependencies]
anstyle = "1"
chrono = { version = "0.4", features = ["serde"] }
clap = { version = "4", features = ["derive", "cargo"] }
icalendar = "*"
minijinja = { version = "2", features = ["loader", "custom_syntax"] }
minijinja-contrib = "2"
rrule = "*"
serde = { version = "1", features = ["derive"] }
toml = "*"
xdg = "2"
